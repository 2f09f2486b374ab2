//! The pipeline: segment the text, keep the accepted blocks, extract one
//! record per block that yields a process identifier, in block order.

use vstd::prelude::*;

use crate::chars::is_digit_char;
use crate::scan::contains_ci;
use crate::scan::chars_of_str;
use crate::segmenter::defer_phrase;
use crate::segmenter::blocks;
use crate::segmenter::anchors;
use crate::segmenter::block_end;
use crate::segmenter::segment_anchors;
use crate::segmenter::lemma_anchors_bounds;
use crate::classifier::accepts;
use crate::classifier::has_representative;
use crate::classifier::accept_block;
use crate::classifier::Patterns;
use crate::extractor::extract_process_id;
use crate::extractor::extract_labeled;
use crate::extractor::extract_specification;
use crate::extractor::titleholder_label;
use crate::extractor::ncl_label;
use crate::extractor::process_id_of_block;
use crate::extractor::labeled_field_of_block;
use crate::extractor::specification_of_block;
use crate::extractor::lemma_process_id_shape;

verus! {

/// One granted-decision record.  The process identifier is nine digits;
/// the other three fields may be empty where their label is absent.
#[derive(Clone, Debug, PartialEq, Eq)]
pub struct RegistroDeferido {
    pub process_id: Vec<char>,
    pub title_holder: Vec<char>,
    pub classification_code: Vec<char>,
    pub specification: Vec<char>,
}

/// The mathematical image of a record: its four fields as sequences.
pub struct RecordView {
    pub process_id: Seq<char>,
    pub title_holder: Seq<char>,
    pub classification_code: Seq<char>,
    pub specification: Seq<char>,
}

impl DeepView for RegistroDeferido {
    type V = RecordView;

    open spec fn deep_view(&self) -> RecordView {
        RecordView {
            process_id: self.process_id@,
            title_holder: self.title_holder@,
            classification_code: self.classification_code@,
            specification: self.specification@,
        }
    }
}

/// The record a block yields: each field extracted independently.
pub open spec fn record_of(b: Seq<char>) -> RecordView {
    RecordView {
        process_id: extract_process_id(b),
        title_holder: extract_labeled(b, titleholder_label()),
        classification_code: extract_labeled(b, ncl_label()),
        specification: extract_specification(b),
    }
}

/// A block contributes a record when it is accepted and yields a process
/// identifier.
pub open spec fn emitted(b: Seq<char>) -> bool {
    accepts(b) && extract_process_id(b).len() > 0
}

/// The records of a sequence of blocks, in order.
pub open spec fn records_from(bs: Seq<Seq<char>>) -> Seq<RecordView>
    decreases bs.len(),
{
    if bs.len() == 0 {
        Seq::empty()
    } else if emitted(bs[0]) {
        seq![record_of(bs[0])] + records_from(bs.drop_first())
    } else {
        records_from(bs.drop_first())
    }
}

/// What the pipeline yields for a text: the records of its blocks.
pub open spec fn records_of_text(s: Seq<char>) -> Seq<RecordView> {
    records_from(blocks(s))
}

/// Runs the pipeline over a text given as characters.
pub fn process_text(text: &Vec<char>) -> (r: Vec<RegistroDeferido>)
    ensures
        r.deep_view() == records_of_text(text@),
{
    let ghost s = text@;
    let ghost bs = blocks(s);
    let pats = Patterns::new();
    let av = segment_anchors(text, &pats.defer, &pats.denial);
    proof {
        lemma_anchors_bounds(s);
    }
    let mut out: Vec<RegistroDeferido> = Vec::new();
    let mut j: usize = 0;
    proof {
        assert(out.deep_view() =~= Seq::<RecordView>::empty());
        assert(bs.skip(0) =~= bs);
        assert(Seq::<RecordView>::empty() + records_from(bs) =~= records_from(bs));
    }
    while j < av.len()
        invariant
            j <= av.len(),
            s == text@,
            bs == blocks(s),
            pats.wf(),
            av@.map_values(|x: usize| x as int) == anchors(s),
            forall|k: int|
                0 <= k < anchors(s).len() ==> 0 <= #[trigger] anchors(s)[k] && anchors(s)[k] + 9
                    <= s.len(),
            forall|k: int, l: int|
                0 <= k < l < anchors(s).len() ==> #[trigger] anchors(s)[k] + 9
                    <= #[trigger] anchors(s)[l],
            out.deep_view() + records_from(bs.skip(j as int)) == records_of_text(s),
        decreases av.len() - j,
    {
        let lo = av[j];
        assert(lo as int == anchors(s)[j as int]);
        let hi = if j + 1 < av.len() {
            assert(anchors(s)[j as int] + 9 <= anchors(s)[j as int + 1]);
            av[j + 1]
        } else {
            text.len()
        };
        assert(lo <= hi <= text.len());
        assert(hi as int == block_end(s, j as int));
        let ghost b = s.subrange(lo as int, hi as int);
        assert(bs[j as int] == b);
        assert(bs.skip(j as int)[0] == bs[j as int]);
        assert(bs.skip(j as int).drop_first() =~= bs.skip(j as int + 1));
        let ghost prev = out.deep_view();
        let accepted = accept_block(text, lo, hi, &pats);
        if accepted {
            let pid = process_id_of_block(text, lo, hi);
            if pid.len() > 0 {
                let rec = RegistroDeferido {
                    process_id: pid,
                    title_holder: labeled_field_of_block(text, lo, hi, &pats.titleholder),
                    classification_code: labeled_field_of_block(text, lo, hi, &pats.ncl),
                    specification: specification_of_block(text, lo, hi, &pats),
                };
                assert(rec.deep_view() == record_of(b));
                out.push(rec);
                proof {
                    assert(out.deep_view() =~= prev + seq![record_of(b)]);
                    assert(prev + (seq![record_of(b)] + records_from(bs.skip(j as int + 1))) =~= (
                    prev + seq![record_of(b)]) + records_from(bs.skip(j as int + 1)));
                }
            } else {
                assert(!emitted(b));
            }
        } else {
            assert(!emitted(b));
        }
        j += 1;
    }
    proof {
        assert(bs.skip(av.len() as int) =~= Seq::<Seq<char>>::empty());
        assert(out.deep_view() + records_from(Seq::<Seq<char>>::empty()) =~= out.deep_view());
    }
    out
}

/// Runs the pipeline over a text given as a string slice.
pub fn process_str(text: &str) -> (r: Vec<RegistroDeferido>)
    ensures
        r.deep_view() == records_of_text(text@),
{
    let chars = chars_of_str(text);
    process_text(&chars)
}

/// The block a record of the output stems from: the record is exactly that
/// block's extraction, and the block was accepted.
pub proof fn lemma_record_witness(bs: Seq<Seq<char>>, k: int) -> (j: int)
    requires
        0 <= k < records_from(bs).len(),
    ensures
        0 <= j < bs.len(),
        emitted(bs[j]),
        records_from(bs)[k] == record_of(bs[j]),
    decreases bs.len(),
{
    assert(bs.len() > 0);
    let rest = bs.drop_first();
    assert(forall|i: int| 0 <= i < rest.len() ==> rest[i] == bs[i + 1]);
    if emitted(bs[0]) {
        assert(records_from(bs) == seq![record_of(bs[0])] + records_from(rest));
        if k == 0 {
            assert(records_from(bs)[0] == record_of(bs[0]));
            0
        } else {
            assert(records_from(bs)[k] == records_from(rest)[k - 1]);
            let j0 = lemma_record_witness(rest, k - 1);
            assert(rest[j0] == bs[j0 + 1]);
            j0 + 1
        }
    } else {
        assert(records_from(bs) == records_from(rest));
        let j0 = lemma_record_witness(rest, k);
        assert(rest[j0] == bs[j0 + 1]);
        j0 + 1
    }
}

/// Every process identifier in the output is exactly nine decimal digits.
pub proof fn lemma_output_ids_are_nine_digits(text: Seq<char>)
    ensures
        forall|k: int|
            0 <= k < records_of_text(text).len() ==> #[trigger] records_of_text(
                text,
            )[k].process_id.len() == 9 && forall|d: int|
                0 <= d < 9 ==> is_digit_char(#[trigger] records_of_text(text)[k].process_id[d]),
{
    let bs = blocks(text);
    assert forall|k: int| 0 <= k < records_of_text(text).len() implies #[trigger] records_of_text(
        text,
    )[k].process_id.len() == 9 && forall|d: int|
        0 <= d < 9 ==> is_digit_char(#[trigger] records_of_text(text)[k].process_id[d]) by {
        let j = lemma_record_witness(bs, k);
        lemma_process_id_shape(bs[j]);
    }
}

/// `r` is the extraction of some block of `text` that carries the granting
/// decision phrase.
pub open spec fn stems_from_decision_block(text: Seq<char>, r: RecordView) -> bool {
    exists|j: int|
        0 <= j < blocks(text).len() && contains_ci(blocks(text)[j], defer_phrase()) && r
            == #[trigger] record_of(blocks(text)[j])
}

/// `r` is the extraction of some block of `text` that carries no
/// representative label variant.
pub open spec fn stems_from_unrepresented_block(text: Seq<char>, r: RecordView) -> bool {
    exists|j: int|
        0 <= j < blocks(text).len() && !has_representative(blocks(text)[j]) && r
            == #[trigger] record_of(blocks(text)[j])
}

/// A block lacking the granting decision phrase contributes nothing: every
/// output record stems from a block that carries the phrase.
pub proof fn lemma_output_only_from_decision_blocks(text: Seq<char>)
    ensures
        forall|k: int|
            0 <= k < records_of_text(text).len() ==> stems_from_decision_block(
                text,
                #[trigger] records_of_text(text)[k],
            ),
{
    let bs = blocks(text);
    assert forall|k: int| 0 <= k < records_of_text(text).len() implies stems_from_decision_block(
        text,
        #[trigger] records_of_text(text)[k],
    ) by {
        let j = lemma_record_witness(bs, k);
        assert(0 <= j < bs.len() && contains_ci(bs[j], defer_phrase()) && records_of_text(text)[k]
            == record_of(bs[j]));
    }
}

/// A block carrying any representative label variant contributes nothing:
/// every output record stems from a block free of them.
pub proof fn lemma_output_only_from_unrepresented_blocks(text: Seq<char>)
    ensures
        forall|k: int|
            0 <= k < records_of_text(text).len() ==> stems_from_unrepresented_block(
                text,
                #[trigger] records_of_text(text)[k],
            ),
{
    let bs = blocks(text);
    assert forall|k: int|
        0 <= k < records_of_text(text).len() implies stems_from_unrepresented_block(
        text,
        #[trigger] records_of_text(text)[k],
    ) by {
        let j = lemma_record_witness(bs, k);
        assert(0 <= j < bs.len() && !has_representative(bs[j]) && records_of_text(text)[k]
            == record_of(bs[j]));
    }
}

/// Empty text yields the empty list: with no room for a nine-digit run
/// there is no anchor, no block, and no record.
pub proof fn lemma_empty_text_yields_nothing(text: Seq<char>)
    requires
        text.len() == 0,
    ensures
        records_of_text(text) == Seq::<RecordView>::empty(),
{
    assert(crate::segmenter::raw_anchors(text).len() == 0);
    assert(anchors(text).len() == 0);
    assert(blocks(text) =~= Seq::<Seq<char>>::empty());
    assert(records_from(Seq::<Seq<char>>::empty()) =~= Seq::<RecordView>::empty());
}

/// The pipeline is deterministic: the output is a function of the text
/// alone, so running it twice on the same text yields the same list.
pub proof fn lemma_pipeline_deterministic(t1: Seq<char>, t2: Seq<char>)
    requires
        t1 == t2,
    ensures
        records_of_text(t1) == records_of_text(t2),
{
}

} // verus!
