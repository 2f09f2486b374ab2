//! The document boundary: bytes go to the outside text extractor, the text
//! through the verified pipeline.

use vstd::prelude::*;
use vstd::string::StringExecFns;

use crate::pipeline::RegistroDeferido;
use crate::pipeline::records_of_text;
use crate::pipeline::process_text;

verus! {

/// What the outside text extractor yields for a document that it can read:
/// a function of the document bytes alone.
pub uninterp spec fn text_of(bytes: Seq<u8>) -> Seq<char>;

/// Whether the outside text extractor can read the document held in the
/// bytes: like `text_of`, a function of the bytes alone.
pub uninterp spec fn extraction_ok(bytes: Seq<u8>) -> bool;

/// Whether the outside text extractor returns at all on the bytes: on some
/// malformed documents that its loader accepts it panics instead of
/// returning its error, driven by the buffer's content alone.  No call can
/// test this condition — where it fails the call does not return — so the
/// contracts promise success only where it holds, and callers own the
/// residual risk, as the original did by calling the extractor directly.
pub uninterp spec fn extraction_returns(bytes: Seq<u8>) -> bool;

#[verifier::external_type_specification]
#[verifier::external_body]
pub struct ExOutputError(pdf_extract::OutputError);

/// Relies on `pdf_extract::extract_text_from_mem`: it reads nothing but the
/// buffer, so its behaviour is a function of the bytes alone — whether it
/// returns at all is named `extraction_returns`, whether it succeeds is
/// named `extraction_ok`, and the text it computes on success is named
/// `text_of`.  Caution: on the inputs where `extraction_returns` fails the
/// outside function panics instead of returning its error, and the
/// library's no-panic promise does not extend across this call.
#[verifier::external_body]
fn extract_text(bytes: &[u8]) -> (r: Result<Vec<char>, pdf_extract::OutputError>)
    ensures
        r is Ok <==> (extraction_ok(bytes@) && extraction_returns(bytes@)),
        r matches Ok(t) ==> t@ == text_of(bytes@),
{
    match pdf_extract::extract_text_from_mem(bytes) {
        Ok(s) => Ok(s.chars().collect()),
        Err(e) => Err(e),
    }
}

/// Why a document yielded no records at all.
#[derive(Debug, Clone, PartialEq, Eq)]
pub enum ProcessingError {
    /// The text extractor could not read the document.
    ExtractionFailure,
}

impl ProcessingError {
    /// A descriptive message naming the failing stage.
    pub fn message(&self) -> (r: String)
        ensures
            r@ == "could not extract text"@,
    {
        String::from_str("could not extract text")
    }
}

/// Extracts the text of the document held in `bytes` and runs the pipeline
/// over it: the call succeeds exactly where the outside extractor returns
/// and reads the document, and then the records are exactly those of the
/// document's text; an unreadable document is an extraction failure, all
/// or nothing.  On the inputs where `extraction_returns` fails the outside
/// extractor panics and the call does not return.
pub fn process_from_bytes(bytes: &[u8]) -> (r: Result<Vec<RegistroDeferido>, ProcessingError>)
    ensures
        r is Ok <==> (extraction_ok(bytes@) && extraction_returns(bytes@)),
        r matches Ok(v) ==> v.deep_view() == records_of_text(text_of(bytes@)),
        r matches Err(e) ==> e == ProcessingError::ExtractionFailure,
{
    match extract_text(bytes) {
        Ok(t) => Ok(process_text(&t)),
        Err(_) => Err(ProcessingError::ExtractionFailure),
    }
}

} // verus!
