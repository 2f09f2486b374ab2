use bulletin_records::pipeline::process_str;
use bulletin_records::pipeline::process_text;
use bulletin_records::pipeline::RegistroDeferido;

fn chars(s: &str) -> Vec<char> {
    s.chars().collect()
}

fn string_of(v: &Vec<char>) -> String {
    v.iter().collect()
}

#[test]
fn scenario_full_record() {
    let text = "123456789 ... Deferment of request ... Titleholder: Acme Corp\nNcl(12): 09\nSpecification: computer software 987654321 more text\n";
    let records = process_str(text);
    assert_eq!(records.len(), 1);
    assert_eq!(string_of(&records[0].process_id), "123456789");
    assert_eq!(string_of(&records[0].title_holder), "Acme Corp");
    assert_eq!(string_of(&records[0].classification_code), "09");
    assert_eq!(string_of(&records[0].specification), "computer software");
}

#[test]
fn scenario_representative_excluded() {
    let text = "123456789 Deferment of request\nRepresentative: John Doe\nTitleholder: Acme Corp\n";
    let records = process_str(text);
    assert!(records.is_empty());
}

#[test]
fn scenario_bare_record() {
    let text = "555000111 Deferment of request granted.\nno labels follow here\n";
    let records = process_str(text);
    assert_eq!(records.len(), 1);
    assert_eq!(string_of(&records[0].process_id), "555000111");
    assert_eq!(string_of(&records[0].title_holder), "");
    assert_eq!(string_of(&records[0].classification_code), "");
    assert_eq!(string_of(&records[0].specification), "");
}

#[test]
fn scenario_empty_input() {
    let records = process_str("");
    assert!(records.is_empty());
}

#[test]
fn denial_block_is_not_emitted() {
    // The denial phrase keeps the anchor at segmentation, but the
    // classifier then asks for the deferment phrase in the block.
    let text = "123456789 Denial of request\nTitleholder: Acme Corp\n";
    let records = process_str(text);
    assert!(records.is_empty());
}

#[test]
fn block_without_decision_phrase_yields_no_anchor() {
    let text = "123456789 a page number, nothing else of note\n";
    let records = process_str(text);
    assert!(records.is_empty());
}

#[test]
fn phrase_beyond_lookahead_drops_anchor() {
    let filler = "x".repeat(220);
    let text = format!("123456789 {} Deferment of request\n", filler);
    let records = process_str(&text);
    assert!(records.is_empty());
}

#[test]
fn two_records_keep_text_order() {
    let text = "111222333 Deferment of request\nTitleholder: First Co\n\
                444555666 Deferment of request\nTitleholder: Second Co\n";
    let records = process_str(text);
    assert_eq!(records.len(), 2);
    assert_eq!(string_of(&records[0].process_id), "111222333");
    assert_eq!(string_of(&records[0].title_holder), "First Co");
    assert_eq!(string_of(&records[1].process_id), "444555666");
    assert_eq!(string_of(&records[1].title_holder), "Second Co");
}

#[test]
fn second_block_starts_at_next_anchor() {
    // The first block ends where the second anchor starts, so the second
    // titleholder belongs to the second record only.
    let text = "111222333 Deferment of request\n444555666 Deferment of request\nTitleholder: Only Second\n";
    let records = process_str(text);
    assert_eq!(records.len(), 2);
    assert_eq!(string_of(&records[0].title_holder), "");
    assert_eq!(string_of(&records[1].title_holder), "Only Second");
}

#[test]
fn running_twice_gives_identical_output() {
    let text = "111222333 Deferment of request\nTitleholder: Acme\n\
                444555666 Deferment of request\nRepresentative: J. Doe\n";
    let input = chars(text);
    let first: Vec<RegistroDeferido> = process_text(&input);
    let second: Vec<RegistroDeferido> = process_text(&input);
    assert_eq!(first, second);
    assert_eq!(first.len(), 1);
}

#[test]
fn every_output_id_is_nine_digits() {
    let text = "12345678 too short 999888777 Deferment of request\n1234567890 Deferment of request\n";
    let records = process_str(text);
    for r in &records {
        let id = string_of(&r.process_id);
        assert_eq!(id.len(), 9);
        assert!(id.chars().all(|c| c.is_ascii_digit()));
    }
    assert!(!records.is_empty());
}

#[test]
fn representative_mixed_case_excluded() {
    let text = "123456789 Deferment of request\nRePreSentative: John Doe\n";
    assert!(process_str(text).is_empty());
}

#[test]
fn representative_upper_case_excluded() {
    let text = "123456789 Deferment of request\nREPRESENTATIVE JOHN DOE\n";
    assert!(process_str(text).is_empty());
}

#[test]
fn representative_before_newline_excluded() {
    // The newline becomes a space under normalization, so the lower-case
    // space variant matches.
    let text = "123456789 Deferment of request\nrepresentative\nJohn Doe\n";
    assert!(process_str(text).is_empty());
}

#[test]
fn titleholder_label_case_insensitive() {
    let text = "123456789 Deferment of request\nTITLEHOLDER:   Spaced Out Co  \n";
    let records = process_str(text);
    assert_eq!(records.len(), 1);
    assert_eq!(string_of(&records[0].title_holder), "Spaced Out Co");
}

#[test]
fn ncl_label_must_carry_the_twelve() {
    let text = "123456789 Deferment of request\nNcl(11): 09\n";
    let records = process_str(text);
    assert_eq!(records.len(), 1);
    assert_eq!(string_of(&records[0].classification_code), "");
}

#[test]
fn specification_without_digits_is_kept_whole() {
    let text = "123456789 Deferment of request\nSpecification: plain goods\n";
    let records = process_str(text);
    assert_eq!(records.len(), 1);
    assert_eq!(string_of(&records[0].specification), "plain goods");
}

#[test]
fn specification_with_short_number_is_kept_whole() {
    let text = "123456789 Deferment of request\nSpecification: version 123 of the kit\n";
    let records = process_str(text);
    assert_eq!(records.len(), 1);
    assert_eq!(string_of(&records[0].specification), "version 123 of the kit");
}

#[test]
fn specification_cut_before_embedded_id() {
    let text = "123456789 Deferment of request\nSpecification: kit 42 parts 987654321 next entry\n";
    let records = process_str(text);
    assert_eq!(records.len(), 1);
    assert_eq!(string_of(&records[0].specification), "kit 42 parts");
}

#[test]
fn label_on_next_line_is_captured() {
    // Whitespace after the label, newlines included, is skipped before the
    // capture starts.
    let text = "123456789 Deferment of request\nTitleholder:\n  Acme Corp\n";
    let records = process_str(text);
    assert_eq!(records.len(), 1);
    assert_eq!(string_of(&records[0].title_holder), "Acme Corp");
}

#[test]
fn representative_without_separator_is_not_excluded() {
    // The label variants all ask for a colon or a space after the word, so
    // a block ending in the bare lower-case word is kept.
    let text = "123456789 Deferment of request representative";
    let records = process_str(text);
    assert_eq!(records.len(), 1);
}

#[test]
fn capture_stops_at_carriage_return() {
    let text = "123456789 Deferment of request\nTitleholder: Acme Corp\r\nNcl(12): 41\r\n";
    let records = process_str(text);
    assert_eq!(records.len(), 1);
    assert_eq!(string_of(&records[0].title_holder), "Acme Corp");
    assert_eq!(string_of(&records[0].classification_code), "41");
}

#[test]
fn unicode_whitespace_is_trimmed_from_fields() {
    // A no-break space counts as whitespace for trimming and label skip.
    let text = "123456789 Deferment of request\nTitleholder:\u{a0}Acme Corp\u{a0}\n";
    let records = process_str(text);
    assert_eq!(records.len(), 1);
    assert_eq!(string_of(&records[0].title_holder), "Acme Corp");
}

#[test]
fn close_digit_runs_do_not_both_anchor() {
    // The scan resumes after a match, so the second run starts inside the
    // consumed span and seeds no anchor of its own.
    let text = "12345678901234 Deferment of request\n";
    let records = process_str(text);
    assert_eq!(records.len(), 1);
    assert_eq!(string_of(&records[0].process_id), "123456789");
}
