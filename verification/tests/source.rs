use bulletin_records::source::process_from_bytes;
use bulletin_records::source::ProcessingError;

/// A minimal one-page document whose text is `line`, built with correct
/// cross-reference offsets.
fn tiny_pdf(line: &str) -> Vec<u8> {
    let content = format!("BT /F1 12 Tf 72 720 Td ({}) Tj ET", line);
    let objects = [
        String::from("1 0 obj\n<< /Type /Catalog /Pages 2 0 R >>\nendobj\n"),
        String::from("2 0 obj\n<< /Type /Pages /Kids [3 0 R] /Count 1 >>\nendobj\n"),
        String::from(
            "3 0 obj\n<< /Type /Page /Parent 2 0 R /MediaBox [0 0 612 792] \
             /Contents 4 0 R /Resources << /Font << /F1 5 0 R >> >> >>\nendobj\n",
        ),
        format!(
            "4 0 obj\n<< /Length {} >>\nstream\n{}\nendstream\nendobj\n",
            content.len(),
            content
        ),
        String::from(
            "5 0 obj\n<< /Type /Font /Subtype /Type1 /BaseFont /Helvetica >>\nendobj\n",
        ),
    ];
    let mut pdf = String::from("%PDF-1.4\n");
    let mut offsets = Vec::new();
    for obj in &objects {
        offsets.push(pdf.len());
        pdf.push_str(obj);
    }
    let xref_at = pdf.len();
    pdf.push_str("xref\n0 6\n0000000000 65535 f \n");
    for off in &offsets {
        pdf.push_str(&format!("{:010} 00000 n \n", off));
    }
    pdf.push_str(&format!(
        "trailer\n<< /Size 6 /Root 1 0 R >>\nstartxref\n{}\n%%EOF\n",
        xref_at
    ));
    pdf.into_bytes()
}

#[test]
fn unreadable_bytes_yield_extraction_failure() {
    let result = process_from_bytes(&[0x25, 0x50, 0x44, 0x46]);
    match result {
        Ok(_) => panic!("garbage bytes must not yield records"),
        Err(e) => {
            assert!(matches!(e, ProcessingError::ExtractionFailure));
            assert_eq!(e.message(), "could not extract text");
        }
    }
}

#[test]
fn document_bytes_yield_records() {
    let pdf = tiny_pdf("123456789 Deferment of request Titleholder: Acme Corp");
    let records = process_from_bytes(&pdf).expect("the document should be readable");
    assert_eq!(records.len(), 1);
    let id: String = records[0].process_id.iter().collect();
    assert_eq!(id, "123456789");
}

#[test]
fn document_with_representative_yields_nothing() {
    let pdf = tiny_pdf("123456789 Deferment of request Representative: J. Doe");
    let records = process_from_bytes(&pdf).expect("the document should be readable");
    assert!(records.is_empty());
}
