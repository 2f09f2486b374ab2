//! Acceptance of a block: it must carry the granting decision phrase,
//! case-insensitively, and no representative label.
//!
//! Representative detection makes two passes.  One normalizes the block —
//! lower case, newlines and carriage returns turned into spaces, then a
//! single left-to-right pass collapsing each double space to one (longer
//! space runs may survive, on purpose), then trimming — and looks for the
//! lower-case label variants.  The other looks for capitalized label
//! variants in the block as it stands.

use vstd::prelude::*;

use crate::chars::lower_char;
use crate::chars::to_lower;
use crate::scan::contains_seq;
use crate::scan::contains_ci;
use crate::scan::trimmed;
use crate::scan::contains_ci_in_range;
use crate::scan::contains_in_range;
use crate::scan::trim_in_range;
use crate::scan::copy_range;
use crate::segmenter::defer_phrase;

verus! {

/// A character after the first normalization step: lower case, with
/// newlines and carriage returns turned into spaces.
pub open spec fn normal_char(c: char) -> char {
    if c == '\n' || c == '\r' {
        ' '
    } else {
        lower_char(c)
    }
}

/// One left-to-right pass over `s` replacing each double space found by a
/// single space, the scan resuming after the replacement.
pub open spec fn collapse_double_spaces(s: Seq<char>) -> Seq<char>
    decreases s.len(),
{
    if s.len() >= 2 && s[0] == ' ' && s[1] == ' ' {
        seq![' '] + collapse_double_spaces(s.skip(2))
    } else if s.len() >= 1 {
        seq![s[0]] + collapse_double_spaces(s.skip(1))
    } else {
        Seq::empty()
    }
}

/// The normalized image of a block: lower case, newlines as spaces, double
/// spaces collapsed once, then trimmed.
pub open spec fn normalized(b: Seq<char>) -> Seq<char> {
    trimmed(collapse_double_spaces(b.map_values(|c: char| normal_char(c))))
}

/// The representative label variants sought in the normalized block.  The
/// two newline variants cannot match once newlines are spaces; they are
/// kept so the normalized pass tests exactly these four patterns.
pub open spec fn rep_lower_colon() -> Seq<char> {
    "representative:"@
}

pub open spec fn rep_lower_space() -> Seq<char> {
    "representative "@
}

pub open spec fn rep_lower_newline() -> Seq<char> {
    "representative\n"@
}

pub open spec fn rep_lower_return() -> Seq<char> {
    "representative\r"@
}

/// The capitalized representative label variants sought in the block as it
/// stands, without normalization.
pub open spec fn rep_title_colon() -> Seq<char> {
    "Representative:"@
}

pub open spec fn rep_title_space() -> Seq<char> {
    "Representative "@
}

pub open spec fn rep_upper_colon() -> Seq<char> {
    "REPRESENTATIVE:"@
}

pub open spec fn rep_upper_space() -> Seq<char> {
    "REPRESENTATIVE "@
}

/// A representative label stands in the block, under any of the six
/// variants: four sought in the normalized image, four in the raw block
/// (the two newline variants being unmatchable after normalization).
pub open spec fn has_representative(b: Seq<char>) -> bool {
    ||| contains_seq(normalized(b), rep_lower_colon())
    ||| contains_seq(normalized(b), rep_lower_space())
    ||| contains_seq(normalized(b), rep_lower_newline())
    ||| contains_seq(normalized(b), rep_lower_return())
    ||| contains_seq(b, rep_title_colon())
    ||| contains_seq(b, rep_title_space())
    ||| contains_seq(b, rep_upper_colon())
    ||| contains_seq(b, rep_upper_space())
}

/// A block is accepted when it carries the granting decision phrase,
/// case-insensitively, and no representative label.
pub open spec fn accepts(b: Seq<char>) -> bool {
    contains_ci(b, defer_phrase()) && !has_representative(b)
}

/// The normalized image of `text[lo..hi]`, built as `normalized` says.
pub fn normalize_block(text: &Vec<char>, lo: usize, hi: usize) -> (r: Vec<char>)
    requires
        lo <= hi <= text.len(),
    ensures
        r@ == normalized(text@.subrange(lo as int, hi as int)),
{
    let ghost sub = text@.subrange(lo as int, hi as int);
    let ghost mapped = sub.map_values(|c: char| normal_char(c));
    let mut m: Vec<char> = Vec::new();
    let mut i: usize = lo;
    proof {
        assert(m@ =~= mapped.take(0));
    }
    while i < hi
        invariant
            lo <= i <= hi <= text.len(),
            sub == text@.subrange(lo as int, hi as int),
            mapped == sub.map_values(|c: char| normal_char(c)),
            m@ == mapped.take(i - lo),
        decreases hi - i,
    {
        let c = text[i];
        assert(c == sub[i - lo]);
        let n = if c == '\n' || c == '\r' {
            ' '
        } else {
            to_lower(c)
        };
        assert(n == normal_char(sub[i - lo]));
        m.push(n);
        assert(m@ =~= mapped.take(i + 1 - lo));
        i += 1;
    }
    assert(mapped.take(hi - lo) =~= mapped);
    let mut out: Vec<char> = Vec::new();
    let mut j: usize = 0;
    proof {
        assert(m@.skip(0) =~= m@);
        assert(out@ + collapse_double_spaces(m@) =~= collapse_double_spaces(m@));
    }
    while j < m.len()
        invariant
            j <= m.len(),
            m@ == mapped,
            out@ + collapse_double_spaces(m@.skip(j as int)) == collapse_double_spaces(m@),
        decreases m.len() - j,
    {
        let ghost rest = m@.skip(j as int);
        assert(rest[0] == m@[j as int]);
        let ghost prev = out@;
        if j + 1 < m.len() && m[j] == ' ' && m[j + 1] == ' ' {
            assert(rest[1] == m@[j + 1]);
            assert(rest.skip(2) =~= m@.skip(j + 2));
            out.push(' ');
            proof {
                assert(out@ =~= prev + seq![' ']);
                assert(prev + (seq![' '] + collapse_double_spaces(m@.skip(j + 2))) =~= (prev
                    + seq![' ']) + collapse_double_spaces(m@.skip(j + 2)));
            }
            j += 2;
        } else {
            assert(rest.len() < 2 || !(rest[0] == ' ' && rest[1] == ' '));
            assert(rest.skip(1) =~= m@.skip(j + 1));
            out.push(m[j]);
            proof {
                assert(out@ =~= prev + seq![m@[j as int]]);
                assert(prev + (seq![m@[j as int]] + collapse_double_spaces(m@.skip(j + 1))) =~= (
                prev + seq![m@[j as int]]) + collapse_double_spaces(m@.skip(j + 1)));
            }
            j += 1;
        }
    }
    proof {
        assert(m@.skip(m.len() as int) =~= Seq::empty());
        assert(out@ + collapse_double_spaces(Seq::empty()) =~= out@);
    }
    let (a, b) = trim_in_range(&out, 0, out.len());
    let r = copy_range(&out, a, b);
    proof {
        assert(out@.subrange(0, out.len() as int) =~= out@);
    }
    r
}

/// The patterns the classifier and the extractor work with, each the exact
/// character sequence of its phrase or label, built once and shared.
pub struct Patterns {
    pub defer: Vec<char>,
    pub denial: Vec<char>,
    pub rep_lc: Vec<char>,
    pub rep_ls: Vec<char>,
    pub rep_ln: Vec<char>,
    pub rep_lr: Vec<char>,
    pub rep_tc: Vec<char>,
    pub rep_ts: Vec<char>,
    pub rep_uc: Vec<char>,
    pub rep_us: Vec<char>,
    pub titleholder: Vec<char>,
    pub ncl: Vec<char>,
    pub specification: Vec<char>,
}

impl Patterns {
    /// Each field holds the character sequence its phrase or label names.
    pub open spec fn wf(&self) -> bool {
        &&& self.defer@ == defer_phrase()
        &&& self.denial@ == crate::segmenter::denial_phrase()
        &&& self.rep_lc@ == rep_lower_colon()
        &&& self.rep_ls@ == rep_lower_space()
        &&& self.rep_ln@ == rep_lower_newline()
        &&& self.rep_lr@ == rep_lower_return()
        &&& self.rep_tc@ == rep_title_colon()
        &&& self.rep_ts@ == rep_title_space()
        &&& self.rep_uc@ == rep_upper_colon()
        &&& self.rep_us@ == rep_upper_space()
        &&& self.titleholder@ == crate::extractor::titleholder_label()
        &&& self.ncl@ == crate::extractor::ncl_label()
        &&& self.specification@ == crate::extractor::specification_label()
    }

    /// Builds the fixed pattern set.
    pub fn new() -> (r: Patterns)
        ensures
            r.wf(),
    {
        Patterns {
            defer: crate::scan::chars_of_str("deferment of request"),
            denial: crate::scan::chars_of_str("denial of request"),
            rep_lc: crate::scan::chars_of_str("representative:"),
            rep_ls: crate::scan::chars_of_str("representative "),
            rep_ln: crate::scan::chars_of_str("representative\n"),
            rep_lr: crate::scan::chars_of_str("representative\r"),
            rep_tc: crate::scan::chars_of_str("Representative:"),
            rep_ts: crate::scan::chars_of_str("Representative "),
            rep_uc: crate::scan::chars_of_str("REPRESENTATIVE:"),
            rep_us: crate::scan::chars_of_str("REPRESENTATIVE "),
            titleholder: crate::scan::chars_of_str("titleholder:"),
            ncl: crate::scan::chars_of_str("ncl(12):"),
            specification: crate::scan::chars_of_str("specification:"),
        }
    }
}

/// Decides whether the block `text[lo..hi]` carries a representative label.
pub fn block_has_representative(text: &Vec<char>, lo: usize, hi: usize, pats: &Patterns) -> (r:
    bool)
    requires
        lo <= hi <= text.len(),
        pats.wf(),
    ensures
        r == has_representative(text@.subrange(lo as int, hi as int)),
{
    let norm = normalize_block(text, lo, hi);
    proof {
        assert(norm@.subrange(0, norm.len() as int) =~= norm@);
    }
    contains_in_range(&norm, 0, norm.len(), &pats.rep_lc) || contains_in_range(
        &norm,
        0,
        norm.len(),
        &pats.rep_ls,
    ) || contains_in_range(&norm, 0, norm.len(), &pats.rep_ln) || contains_in_range(
        &norm,
        0,
        norm.len(),
        &pats.rep_lr,
    ) || contains_in_range(text, lo, hi, &pats.rep_tc) || contains_in_range(
        text,
        lo,
        hi,
        &pats.rep_ts,
    ) || contains_in_range(text, lo, hi, &pats.rep_uc) || contains_in_range(
        text,
        lo,
        hi,
        &pats.rep_us,
    )
}

/// Decides whether the block `text[lo..hi]` is accepted.
pub fn accept_block(text: &Vec<char>, lo: usize, hi: usize, pats: &Patterns) -> (r: bool)
    requires
        lo <= hi <= text.len(),
        pats.wf(),
    ensures
        r == accepts(text@.subrange(lo as int, hi as int)),
{
    contains_ci_in_range(text, lo, hi, &pats.defer) && !block_has_representative(text, lo, hi, pats)
}

} // verus!
