//! Segmentation of the source text into candidate record blocks.
//!
//! A candidate anchor is the start of a run of nine consecutive digits,
//! found scanning left to right with the scan resuming right after each
//! match.  An anchor survives only if a fixed lookahead window starting at
//! it holds one of the decision phrases, case-insensitively.  Block `j`
//! spans from surviving anchor `j` to surviving anchor `j + 1`, the last
//! block running to the end of the text.

use vstd::prelude::*;

use crate::scan::digit_run_at;
use crate::scan::contains_ci;
use crate::scan::contains_ci_in_range;
use crate::scan::run_at;

verus! {

/// How many characters after an anchor are inspected for a decision phrase.
pub const LOOKAHEAD: usize = 200;

/// The decision phrase of a granted request, in lower case.
pub open spec fn defer_phrase() -> Seq<char> {
    "deferment of request"@
}

/// The decision phrase of a refused request, in lower case.
pub open spec fn denial_phrase() -> Seq<char> {
    "denial of request"@
}

/// The candidate anchors at or after position `p`: starts of nine-digit
/// runs, scanned left to right, each match consuming its nine characters.
pub open spec fn raw_anchors_from(s: Seq<char>, p: int) -> Seq<int>
    recommends
        0 <= p,
    decreases s.len() - p when 0 <= p
{
    if !(0 <= p && p + 9 <= s.len()) {
        Seq::empty()
    } else if digit_run_at(s, p) {
        seq![p] + raw_anchors_from(s, p + 9)
    } else {
        raw_anchors_from(s, p + 1)
    }
}

/// All candidate anchors of the text.
pub open spec fn raw_anchors(s: Seq<char>) -> Seq<int> {
    raw_anchors_from(s, 0)
}

/// The lookahead window of an anchor: the next `LOOKAHEAD` characters,
/// clipped at the end of the text.
pub open spec fn window(s: Seq<char>, i: int) -> Seq<char>
    recommends
        0 <= i <= s.len(),
{
    if i + (LOOKAHEAD as int) <= s.len() {
        s.subrange(i, i + (LOOKAHEAD as int))
    } else {
        s.subrange(i, s.len() as int)
    }
}

/// An anchor survives if its window holds a decision phrase.
pub open spec fn anchor_kept(s: Seq<char>, i: int) -> bool {
    contains_ci(window(s, i), defer_phrase()) || contains_ci(window(s, i), denial_phrase())
}

/// The members of `q` that survive the lookahead filter, in order.
pub open spec fn kept_from(s: Seq<char>, q: Seq<int>) -> Seq<int>
    decreases q.len(),
{
    if q.len() == 0 {
        Seq::empty()
    } else if anchor_kept(s, q[0]) {
        seq![q[0]] + kept_from(s, q.drop_first())
    } else {
        kept_from(s, q.drop_first())
    }
}

/// The surviving anchors of the text, in text order.
pub open spec fn anchors(s: Seq<char>) -> Seq<int> {
    kept_from(s, raw_anchors(s))
}

/// Where block `j` ends: at the next surviving anchor, or at the end.
pub open spec fn block_end(s: Seq<char>, j: int) -> int
    recommends
        0 <= j < anchors(s).len(),
{
    if j + 1 < anchors(s).len() {
        anchors(s)[j + 1]
    } else {
        s.len() as int
    }
}

/// The blocks of the text, in text order.
pub open spec fn blocks(s: Seq<char>) -> Seq<Seq<char>> {
    Seq::new(anchors(s).len(), |j: int| s.subrange(anchors(s)[j], block_end(s, j)))
}

/// Every candidate anchor lies at or after the scan start, leaves room for
/// its nine digits, and successive anchors are at least nine apart.
pub proof fn lemma_raw_anchors_from_bounds(s: Seq<char>, p: int)
    requires
        0 <= p,
    ensures
        forall|j: int|
            0 <= j < raw_anchors_from(s, p).len() ==> p <= #[trigger] raw_anchors_from(s, p)[j]
                && raw_anchors_from(s, p)[j] + 9 <= s.len(),
        forall|j: int, k: int|
            0 <= j < k < raw_anchors_from(s, p).len() ==> #[trigger] raw_anchors_from(s, p)[j] + 9
                <= #[trigger] raw_anchors_from(s, p)[k],
    decreases s.len() - p,
{
    let q = raw_anchors_from(s, p);
    if !(p + 9 <= s.len()) {
        assert(q.len() == 0);
    } else if digit_run_at(s, p) {
        lemma_raw_anchors_from_bounds(s, p + 9);
        let rest = raw_anchors_from(s, p + 9);
        assert(q == seq![p] + rest);
        assert(q.len() == 1 + rest.len());
        assert forall|j: int| 0 <= j < q.len() implies p <= #[trigger] q[j] && q[j] + 9
            <= s.len() by {
            if j == 0 {
                assert(q[0] == p);
            } else {
                assert(q[j] == rest[j - 1]);
                assert(p + 9 <= rest[j - 1]);
                assert(rest[j - 1] + 9 <= s.len());
            }
        }
        assert forall|j: int, k: int| 0 <= j < k < q.len() implies #[trigger] q[j] + 9
            <= #[trigger] q[k] by {
            assert(q[k] == rest[k - 1]);
            if j == 0 {
                assert(q[0] == p);
                assert(p + 9 <= rest[k - 1]);
            } else {
                assert(q[j] == rest[j - 1]);
                assert(rest[j - 1] + 9 <= rest[k - 1]);
            }
        }
    } else {
        lemma_raw_anchors_from_bounds(s, p + 1);
        assert(q == raw_anchors_from(s, p + 1));
    }
}

/// The surviving anchors inherit the candidates' bounds and spacing.
pub proof fn lemma_kept_from_bounds(s: Seq<char>, q: Seq<int>, p: int)
    requires
        forall|j: int| 0 <= j < q.len() ==> p <= #[trigger] q[j] && q[j] + 9 <= s.len(),
        forall|j: int, k: int| 0 <= j < k < q.len() ==> #[trigger] q[j] + 9 <= #[trigger] q[k],
    ensures
        forall|j: int|
            0 <= j < kept_from(s, q).len() ==> p <= #[trigger] kept_from(s, q)[j] && kept_from(
                s,
                q,
            )[j] + 9 <= s.len(),
        forall|j: int, k: int|
            0 <= j < k < kept_from(s, q).len() ==> #[trigger] kept_from(s, q)[j] + 9
                <= #[trigger] kept_from(s, q)[k],
    decreases q.len(),
{
    let kq = kept_from(s, q);
    if q.len() == 0 {
        assert(kq.len() == 0);
    } else {
        let rest = q.drop_first();
        assert(forall|j: int| 0 <= j < rest.len() ==> rest[j] == q[j + 1]);
        if anchor_kept(s, q[0]) {
            assert(p <= q[0]);
            assert forall|j: int| 0 <= j < rest.len() implies q[0] + 9 <= #[trigger] rest[j]
                && rest[j] + 9 <= s.len() by {
                assert(rest[j] == q[j + 1]);
                assert(q[0] + 9 <= q[j + 1]);
            }
            lemma_kept_from_bounds(s, rest, q[0] + 9);
            let krest = kept_from(s, rest);
            assert(kq == seq![q[0]] + krest);
            assert(kq.len() == 1 + krest.len());
            assert forall|j: int| 0 <= j < kq.len() implies p <= #[trigger] kq[j] && kq[j] + 9
                <= s.len() by {
                if j == 0 {
                    assert(kq[0] == q[0]);
                } else {
                    assert(kq[j] == krest[j - 1]);
                    assert(q[0] + 9 <= krest[j - 1]);
                    assert(krest[j - 1] + 9 <= s.len());
                }
            }
            assert forall|j: int, k: int| 0 <= j < k < kq.len() implies #[trigger] kq[j] + 9
                <= #[trigger] kq[k] by {
                assert(kq[k] == krest[k - 1]);
                if j == 0 {
                    assert(kq[0] == q[0]);
                    assert(q[0] + 9 <= krest[k - 1]);
                } else {
                    assert(kq[j] == krest[j - 1]);
                    assert(krest[j - 1] + 9 <= krest[k - 1]);
                }
            }
        } else {
            lemma_kept_from_bounds(s, rest, p);
            assert(kq == kept_from(s, rest));
        }
    }
}

/// Bounds and spacing of the surviving anchors of a text.
pub proof fn lemma_anchors_bounds(s: Seq<char>)
    ensures
        forall|j: int|
            0 <= j < anchors(s).len() ==> 0 <= #[trigger] anchors(s)[j] && anchors(s)[j] + 9
                <= s.len(),
        forall|j: int, k: int|
            0 <= j < k < anchors(s).len() ==> #[trigger] anchors(s)[j] + 9 <= #[trigger] anchors(
                s,
            )[k],
{
    lemma_raw_anchors_from_bounds(s, 0);
    lemma_kept_from_bounds(s, raw_anchors(s), 0);
}

/// The candidate anchors of the text, as the scan finds them.
pub fn scan_raw_anchors(text: &Vec<char>) -> (r: Vec<usize>)
    ensures
        r@.map_values(|x: usize| x as int) == raw_anchors(text@),
{
    let mut out: Vec<usize> = Vec::new();
    let mut p: usize = 0;
    while 9 <= text.len() - p
        invariant
            p <= text.len(),
            out@.map_values(|x: usize| x as int) + raw_anchors_from(text@, p as int)
                == raw_anchors(text@),
        decreases text.len() - p,
    {
        if run_at(text, 0, text.len(), p) {
            assert(text@.subrange(0, text.len() as int) =~= text@);
            let ghost prev = out@;
            out.push(p);
            assert(out@.map_values(|x: usize| x as int) =~= prev.map_values(|x: usize| x as int)
                + seq![p as int]);
            assert(prev.map_values(|x: usize| x as int) + (seq![p as int] + raw_anchors_from(
                text@,
                p + 9,
            )) =~= (prev.map_values(|x: usize| x as int) + seq![p as int]) + raw_anchors_from(
                text@,
                p + 9,
            ));
            p += 9;
        } else {
            assert(text@.subrange(0, text.len() as int) =~= text@);
            p += 1;
        }
    }
    assert(out@.map_values(|x: usize| x as int) + raw_anchors_from(text@, p as int)
        =~= out@.map_values(|x: usize| x as int));
    out
}

/// Decides whether the anchor at `i` survives the lookahead filter.
pub fn anchor_kept_at(text: &Vec<char>, i: usize, defer_pat: &Vec<char>, denial_pat: &Vec<char>) -> (r:
    bool)
    requires
        i <= text.len(),
        defer_pat@ == defer_phrase(),
        denial_pat@ == denial_phrase(),
    ensures
        r == anchor_kept(text@, i as int),
{
    let hi = if LOOKAHEAD <= text.len() - i {
        i + LOOKAHEAD
    } else {
        text.len()
    };
    assert(text@.subrange(i as int, hi as int) == window(text@, i as int));
    contains_ci_in_range(text, i, hi, defer_pat) || contains_ci_in_range(text, i, hi, denial_pat)
}

/// The surviving anchors of the text, in text order.
pub fn segment_anchors(text: &Vec<char>, defer_pat: &Vec<char>, denial_pat: &Vec<char>) -> (r: Vec<
    usize,
>)
    requires
        defer_pat@ == defer_phrase(),
        denial_pat@ == denial_phrase(),
    ensures
        r@.map_values(|x: usize| x as int) == anchors(text@),
{
    let raw = scan_raw_anchors(text);
    proof {
        lemma_raw_anchors_from_bounds(text@, 0);
    }
    let ghost rawview = raw@.map_values(|x: usize| x as int);
    let mut out: Vec<usize> = Vec::new();
    let mut i: usize = 0;
    proof {
        assert(rawview.skip(0) =~= rawview);
        assert(out@.map_values(|x: usize| x as int) =~= Seq::<int>::empty());
        assert(Seq::<int>::empty() + kept_from(text@, rawview) =~= kept_from(text@, rawview));
    }
    while i < raw.len()
        invariant
            i <= raw.len(),
            defer_pat@ == defer_phrase(),
            denial_pat@ == denial_phrase(),
            rawview == raw@.map_values(|x: usize| x as int),
            rawview == raw_anchors(text@),
            forall|j: int| 0 <= j < rawview.len() ==> 0 <= #[trigger] rawview[j] + 9 <= text@.len(),
            out@.map_values(|x: usize| x as int) + kept_from(text@, rawview.skip(i as int))
                == anchors(text@),
        decreases raw.len() - i,
    {
        let a = raw[i];
        assert(a as int == rawview[i as int]);
        let ghost sk = rawview.skip(i as int);
        assert(sk[0] == rawview[i as int]);
        assert(sk.drop_first() =~= rawview.skip(i as int + 1));
        if anchor_kept_at(text, a, defer_pat, denial_pat) {
            let ghost prev = out@;
            out.push(a);
            assert(out@.map_values(|x: usize| x as int) =~= prev.map_values(|x: usize| x as int)
                + seq![a as int]);
            assert(prev.map_values(|x: usize| x as int) + (seq![a as int] + kept_from(
                text@,
                rawview.skip(i as int + 1),
            )) =~= (prev.map_values(|x: usize| x as int) + seq![a as int]) + kept_from(
                text@,
                rawview.skip(i as int + 1),
            ));
        }
        i += 1;
    }
    assert(rawview.skip(raw.len() as int) =~= Seq::empty());
    assert(out@.map_values(|x: usize| x as int) + kept_from(text@, Seq::empty())
        =~= out@.map_values(|x: usize| x as int));
    out
}

} // verus!
