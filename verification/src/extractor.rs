//! Extraction of the four record fields from a block.
//!
//! Each field is computed independently over the whole block: the process
//! identifier is the first nine-digit run; the three labeled fields are the
//! text after the first case-insensitive occurrence of their label, with
//! whitespace skipped, captured to the end of the line and trimmed.  The
//! specification capture is additionally cut before the first embedded
//! nine-digit run, so the next record's identifier cannot leak into it.

use vstd::prelude::*;

use crate::scan::digit_run_at;
use crate::scan::first_run_from;
use crate::scan::find_ci_from;
use crate::scan::skip_spaces_from;
use crate::scan::line_end_from;
use crate::scan::trimmed;
use crate::scan::find_ci_in_range;
use crate::scan::find_run_in_range;
use crate::scan::skip_spaces_in_range;
use crate::scan::line_end_in_range;
use crate::scan::trim_in_range;
use crate::scan::copy_range;
use crate::classifier::Patterns;

verus! {

/// The label of the title holder field, in lower case.
pub open spec fn titleholder_label() -> Seq<char> {
    "titleholder:"@
}

/// The label of the classification code field, in lower case.
pub open spec fn ncl_label() -> Seq<char> {
    "ncl(12):"@
}

/// The label of the specification field, in lower case.
pub open spec fn specification_label() -> Seq<char> {
    "specification:"@
}

/// The process identifier of a block: its first nine-digit run, or empty
/// if the block has none.
pub open spec fn extract_process_id(b: Seq<char>) -> Seq<char> {
    match first_run_from(b, 0) {
        Some(i) => b.subrange(i, i + 9),
        None => Seq::empty(),
    }
}

/// The field under `label` in block `b`: after the first case-insensitive
/// occurrence of the label, whitespace is skipped and the rest of the line
/// captured, trimmed; empty if the label does not occur.  A line ends at
/// the next newline or carriage return, the same rule for every field.
pub open spec fn extract_labeled(b: Seq<char>, label: Seq<char>) -> Seq<char> {
    match find_ci_from(b, label, 0) {
        Some(i) => {
            let start = skip_spaces_from(b, i + label.len());
            let stop = line_end_from(b, start);
            trimmed(b.subrange(start, stop))
        },
        None => Seq::empty(),
    }
}

/// A labeled capture cut before its first embedded nine-digit run, and
/// trimmed again; unchanged if it holds no such run.  A run can only start
/// at or after the capture's first digit, so searching from the start of
/// the capture and searching from that digit find the same run.
pub open spec fn cut_before_run(c: Seq<char>) -> Seq<char> {
    match first_run_from(c, 0) {
        Some(q) => trimmed(c.subrange(0, q)),
        None => c,
    }
}

/// The specification field of a block: the labeled capture with the cut
/// applied.
pub open spec fn extract_specification(b: Seq<char>) -> Seq<char> {
    cut_before_run(extract_labeled(b, specification_label()))
}

/// The process identifier of `text[lo..hi]`, as `extract_process_id` says.
pub fn process_id_of_block(text: &Vec<char>, lo: usize, hi: usize) -> (r: Vec<char>)
    requires
        lo <= hi <= text.len(),
    ensures
        r@ == extract_process_id(text@.subrange(lo as int, hi as int)),
{
    match find_run_in_range(text, lo, hi, 0) {
        Some(i) => copy_range(text, lo + i, lo + i + 9),
        None => Vec::new(),
    }
}

/// The field under `label` in `text[lo..hi]`, as `extract_labeled` says.
pub fn labeled_field_of_block(text: &Vec<char>, lo: usize, hi: usize, label: &Vec<char>) -> (r: Vec<
    char,
>)
    requires
        lo <= hi <= text.len(),
    ensures
        r@ == extract_labeled(text@.subrange(lo as int, hi as int), label@),
{
    match find_ci_in_range(text, lo, hi, label, 0) {
        Some(i) => {
            let start = skip_spaces_in_range(text, lo, hi, i + label.len());
            let stop = line_end_in_range(text, lo, hi, start);
            let (a, b) = trim_in_range(text, lo + start, lo + stop);
            assert(text@.subrange(lo + start, lo + stop) =~= text@.subrange(
                lo as int,
                hi as int,
            ).subrange(start as int, stop as int));
            copy_range(text, a, b)
        },
        None => Vec::new(),
    }
}

/// The specification field of `text[lo..hi]`, as `extract_specification`
/// says.
pub fn specification_of_block(text: &Vec<char>, lo: usize, hi: usize, pats: &Patterns) -> (r: Vec<
    char,
>)
    requires
        lo <= hi <= text.len(),
        pats.wf(),
    ensures
        r@ == extract_specification(text@.subrange(lo as int, hi as int)),
{
    let c = labeled_field_of_block(text, lo, hi, &pats.specification);
    match find_run_in_range(&c, 0, c.len(), 0) {
        Some(q) => {
            assert(c@.subrange(0, c.len() as int) =~= c@);
            let (a, b) = trim_in_range(&c, 0, q);
            assert(c@.subrange(0, q as int) =~= c@.subrange(0, c.len() as int).subrange(
                0,
                q as int,
            ));
            copy_range(&c, a, b)
        },
        None => {
            assert(c@.subrange(0, c.len() as int) =~= c@);
            c
        },
    }
}

/// What `extract_process_id` yields is either empty or exactly nine
/// digits, taken from a nine-digit run of the block.
pub proof fn lemma_process_id_shape(b: Seq<char>)
    ensures
        extract_process_id(b).len() == 0 || extract_process_id(b).len() == 9,
        extract_process_id(b).len() == 9 ==> forall|d: int|
            0 <= d < 9 ==> crate::chars::is_digit_char(#[trigger] extract_process_id(b)[d]),
{
    lemma_first_run_props(b, 0);
    match first_run_from(b, 0) {
        Some(i) => {
            assert(digit_run_at(b, i));
            assert forall|d: int| 0 <= d < 9 implies crate::chars::is_digit_char(
                #[trigger] extract_process_id(b)[d],
            ) by {
                assert(extract_process_id(b)[d] == b[i + d]);
            }
        },
        None => {},
    }
}

/// The truncation rule of the specification field, and its effect: where
/// the labeled capture holds an embedded nine-digit run, the emitted field
/// is everything before that run, re-trimmed — and so the emitted field
/// never holds a nine-digit run at all, wherever one stood in the capture.
pub proof fn lemma_specification_truncated(b: Seq<char>)
    ensures
        ({
            let c = extract_labeled(b, specification_label());
            match first_run_from(c, 0) {
                Some(q) => extract_specification(b) == trimmed(c.subrange(0, q)),
                None => extract_specification(b) == c,
            }
        }),
        forall|q: int| !digit_run_at(#[trigger] extract_specification(b), q),
{
    let c = extract_labeled(b, specification_label());
    lemma_first_run_props(c, 0);
    match first_run_from(c, 0) {
        Some(q0) => {
            let p = c.subrange(0, q0);
            assert forall|q: int| !digit_run_at(p, q) by {
                if digit_run_at(p, q) {
                    crate::scan::lemma_run_in_subrange(c, 0, q0, q);
                    assert(digit_run_at(c, q));
                    assert(0 <= q && q + 9 <= p.len());
                }
            }
            let r = crate::scan::lemma_trimmed_is_infix(p);
            assert forall|q: int| !digit_run_at(#[trigger] extract_specification(b), q) by {
                if digit_run_at(trimmed(p), q) {
                    crate::scan::lemma_run_in_subrange(p, r.0, r.1, q);
                }
            }
        },
        None => {
            assert forall|q: int| !digit_run_at(#[trigger] extract_specification(b), q) by {
                if digit_run_at(c, q) {
                    assert(0 <= q);
                }
            }
        },
    }
}

/// Where the first nine-digit run at or after `p` stands, none stands
/// earlier; where none is reported, none stands at all.
pub proof fn lemma_first_run_props(s: Seq<char>, p: int)
    requires
        0 <= p,
    ensures
        match first_run_from(s, p) {
            Some(i) => p <= i && i + 9 <= s.len() && digit_run_at(s, i) && forall|k: int|
                p <= k < i ==> !digit_run_at(s, k),
            None => forall|k: int| p <= k ==> !digit_run_at(s, k),
        },
    decreases s.len() - p,
{
    if !(p + 9 <= s.len()) {
    } else if digit_run_at(s, p) {
    } else {
        lemma_first_run_props(s, p + 1);
    }
}

} // verus!
