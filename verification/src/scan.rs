//! Scanning primitives over character sequences: substring search (exact and
//! case-insensitive), nine-digit runs, whitespace skipping and trimming.
//!
//! Executable functions work on a `Vec<char>` between two bounds `lo <= hi`,
//! so a block of the source text is handled as a view without copying it;
//! their contracts speak of `text@.subrange(lo, hi)`.

use vstd::prelude::*;

use crate::chars::is_digit_char;
use crate::chars::is_space_char;
use crate::chars::lower_char;
use crate::chars::digit_char;
use crate::chars::space_char;
use crate::chars::to_lower;

verus! {

/// `pat` occurs in `s` starting at position `i`.
pub open spec fn matches_at(s: Seq<char>, pat: Seq<char>, i: int) -> bool {
    &&& 0 <= i
    &&& i + pat.len() <= s.len()
    &&& forall|j: int| 0 <= j < pat.len() ==> s[i + j] == pat[j]
}

/// `pat` occurs somewhere in `s`.
pub open spec fn contains_seq(s: Seq<char>, pat: Seq<char>) -> bool {
    exists|i: int| matches_at(s, pat, i)
}

/// The lower-case image of `s` carries `pat` at position `i`; `pat` is
/// expected in lower case, which makes the match case-insensitive.
pub open spec fn matches_ci_at(s: Seq<char>, pat: Seq<char>, i: int) -> bool {
    &&& 0 <= i
    &&& i + pat.len() <= s.len()
    &&& forall|j: int| 0 <= j < pat.len() ==> lower_char(s[i + j]) == pat[j]
}

/// `pat` (given in lower case) occurs in `s` up to letter case.
pub open spec fn contains_ci(s: Seq<char>, pat: Seq<char>) -> bool {
    exists|i: int| matches_ci_at(s, pat, i)
}

/// The first position at or after `i` where `pat` matches `s` up to case.
pub open spec fn find_ci_from(s: Seq<char>, pat: Seq<char>, i: int) -> Option<int>
    recommends
        0 <= i,
    decreases s.len() - i when 0 <= i
{
    if !(0 <= i && i + pat.len() <= s.len()) {
        None
    } else if matches_ci_at(s, pat, i) {
        Some(i)
    } else {
        find_ci_from(s, pat, i + 1)
    }
}

/// Nine consecutive decimal digits stand in `s` at position `i`.
pub open spec fn digit_run_at(s: Seq<char>, i: int) -> bool {
    &&& 0 <= i
    &&& i + 9 <= s.len()
    &&& forall|k: int| i <= k < i + 9 ==> is_digit_char(s[k])
}

/// The first position at or after `i` where a nine-digit run starts.
pub open spec fn first_run_from(s: Seq<char>, i: int) -> Option<int>
    recommends
        0 <= i,
    decreases s.len() - i when 0 <= i
{
    if !(0 <= i && i + 9 <= s.len()) {
        None
    } else if digit_run_at(s, i) {
        Some(i)
    } else {
        first_run_from(s, i + 1)
    }
}

/// The first position at or after `i` holding a non-whitespace character,
/// or the length of `s` if all of the rest is whitespace.
pub open spec fn skip_spaces_from(s: Seq<char>, i: int) -> int
    recommends
        0 <= i <= s.len(),
    decreases s.len() - i when 0 <= i
{
    if 0 <= i && i < s.len() {
        if is_space_char(s[i]) {
            skip_spaces_from(s, i + 1)
        } else {
            i
        }
    } else {
        i
    }
}

/// The first position at or after `i` holding a newline or carriage return,
/// or the length of `s` if the line runs to the end.
pub open spec fn line_end_from(s: Seq<char>, i: int) -> int
    recommends
        0 <= i <= s.len(),
    decreases s.len() - i when 0 <= i
{
    if 0 <= i && i < s.len() {
        if s[i] == '\n' || s[i] == '\r' {
            i
        } else {
            line_end_from(s, i + 1)
        }
    } else {
        i
    }
}

/// `s` without its leading whitespace.
pub open spec fn trim_start(s: Seq<char>) -> Seq<char>
    decreases s.len(),
{
    if s.len() > 0 && is_space_char(s[0]) {
        trim_start(s.drop_first())
    } else {
        s
    }
}

/// `s` without its trailing whitespace.
pub open spec fn trim_end(s: Seq<char>) -> Seq<char>
    decreases s.len(),
{
    if s.len() > 0 && is_space_char(s.last()) {
        trim_end(s.drop_last())
    } else {
        s
    }
}

/// `s` without leading and trailing whitespace.
pub open spec fn trimmed(s: Seq<char>) -> Seq<char> {
    trim_end(trim_start(s))
}

/// `trim_start` yields a suffix of its argument.
pub proof fn lemma_trim_start_is_suffix(s: Seq<char>) -> (a: int)
    ensures
        0 <= a <= s.len(),
        trim_start(s) == s.subrange(a, s.len() as int),
    decreases s.len(),
{
    if s.len() > 0 && is_space_char(s[0]) {
        let a0 = lemma_trim_start_is_suffix(s.drop_first());
        assert(s.drop_first().subrange(a0, s.drop_first().len() as int) =~= s.subrange(
            a0 + 1,
            s.len() as int,
        ));
        a0 + 1
    } else {
        assert(s.subrange(0, s.len() as int) =~= s);
        0
    }
}

/// `trim_end` yields a prefix of its argument.
pub proof fn lemma_trim_end_is_prefix(s: Seq<char>) -> (b: int)
    ensures
        0 <= b <= s.len(),
        trim_end(s) == s.subrange(0, b),
    decreases s.len(),
{
    if s.len() > 0 && is_space_char(s.last()) {
        let b0 = lemma_trim_end_is_prefix(s.drop_last());
        assert(s.drop_last().subrange(0, b0) =~= s.subrange(0, b0));
        b0
    } else {
        assert(s.subrange(0, s.len() as int) =~= s);
        s.len() as int
    }
}

/// `trimmed` yields a contiguous piece of its argument.
pub proof fn lemma_trimmed_is_infix(s: Seq<char>) -> (r: (int, int))
    ensures
        0 <= r.0 <= r.1 <= s.len(),
        trimmed(s) == s.subrange(r.0, r.1),
{
    let a = lemma_trim_start_is_suffix(s);
    let t = trim_start(s);
    let b = lemma_trim_end_is_prefix(t);
    assert(t.subrange(0, b) =~= s.subrange(a, a + b));
    (a, a + b)
}

/// A nine-digit run inside a piece of `s` is a nine-digit run of `s`.
pub proof fn lemma_run_in_subrange(s: Seq<char>, a: int, b: int, q: int)
    requires
        0 <= a <= b <= s.len(),
        digit_run_at(s.subrange(a, b), q),
    ensures
        digit_run_at(s, a + q),
{
    assert forall|k: int| a + q <= k < a + q + 9 implies is_digit_char(s[k]) by {
        assert(s.subrange(a, b)[k - a] == s[k]);
        assert(is_digit_char(s.subrange(a, b)[k - a]));
    }
}

/// Decides whether `pat` matches `text[lo..hi]` at offset `at`, up to case.
pub fn match_ci_at(text: &Vec<char>, lo: usize, hi: usize, pat: &Vec<char>, at: usize) -> (r:
    bool)
    requires
        lo <= hi <= text.len(),
        at + pat.len() <= hi - lo,
    ensures
        r == matches_ci_at(text@.subrange(lo as int, hi as int), pat@, at as int),
{
    let ghost sub = text@.subrange(lo as int, hi as int);
    let mut j: usize = 0;
    while j < pat.len()
        invariant
            lo <= hi <= text.len(),
            at + pat.len() <= hi - lo,
            j <= pat.len(),
            sub == text@.subrange(lo as int, hi as int),
            forall|k: int| 0 <= k < j ==> lower_char(sub[at + k]) == pat@[k],
        decreases pat.len() - j,
    {
        if to_lower(text[lo + at + j]) != pat[j] {
            assert(lower_char(sub[at + j]) != pat@[j as int]);
            return false;
        }
        j += 1;
    }
    true
}

/// The first offset at or after `from` where `pat` matches `text[lo..hi]`
/// up to case, as `find_ci_from` names it.
pub fn find_ci_in_range(text: &Vec<char>, lo: usize, hi: usize, pat: &Vec<char>, from: usize) -> (r:
    Option<usize>)
    requires
        lo <= hi <= text.len(),
        from <= hi - lo,
    ensures
        match r {
            Some(j) => from <= j && j + pat.len() <= hi - lo && Some(j as int) == find_ci_from(
                text@.subrange(lo as int, hi as int),
                pat@,
                from as int,
            ),
            None => find_ci_from(text@.subrange(lo as int, hi as int), pat@, from as int) is None,
        },
{
    let ghost sub = text@.subrange(lo as int, hi as int);
    let mut i: usize = from;
    while pat.len() <= hi - lo - i
        invariant
            lo <= hi <= text.len(),
            from <= i <= hi - lo,
            sub == text@.subrange(lo as int, hi as int),
            find_ci_from(sub, pat@, from as int) == find_ci_from(sub, pat@, i as int),
        decreases hi - lo - i,
    {
        if match_ci_at(text, lo, hi, pat, i) {
            return Some(i);
        }
        i += 1;
    }
    None
}

/// Reports whether `pat` occurs in `text[lo..hi]` up to case.
pub fn contains_ci_in_range(text: &Vec<char>, lo: usize, hi: usize, pat: &Vec<char>) -> (r: bool)
    requires
        lo <= hi <= text.len(),
    ensures
        r == contains_ci(text@.subrange(lo as int, hi as int), pat@),
{
    let ghost sub = text@.subrange(lo as int, hi as int);
    let mut i: usize = 0;
    while pat.len() <= hi - lo - i
        invariant
            lo <= hi <= text.len(),
            i <= hi - lo,
            sub == text@.subrange(lo as int, hi as int),
            forall|k: int| 0 <= k < i ==> !matches_ci_at(sub, pat@, k),
        decreases hi - lo - i,
    {
        if match_ci_at(text, lo, hi, pat, i) {
            return true;
        }
        i += 1;
    }
    assert(forall|k: int| !matches_ci_at(sub, pat@, k));
    false
}

/// Reports whether `pat` occurs in `text[lo..hi]` exactly.
pub fn contains_in_range(text: &Vec<char>, lo: usize, hi: usize, pat: &Vec<char>) -> (r: bool)
    requires
        lo <= hi <= text.len(),
    ensures
        r == contains_seq(text@.subrange(lo as int, hi as int), pat@),
{
    let ghost sub = text@.subrange(lo as int, hi as int);
    let mut i: usize = 0;
    while pat.len() <= hi - lo - i
        invariant
            lo <= hi <= text.len(),
            i <= hi - lo,
            sub == text@.subrange(lo as int, hi as int),
            forall|k: int| 0 <= k < i ==> !matches_at(sub, pat@, k),
        decreases hi - lo - i,
    {
        if match_at(text, lo, hi, pat, i) {
            return true;
        }
        i += 1;
    }
    assert(forall|k: int| !matches_at(sub, pat@, k));
    false
}

/// Decides whether `pat` matches `text[lo..hi]` at offset `at` exactly.
pub fn match_at(text: &Vec<char>, lo: usize, hi: usize, pat: &Vec<char>, at: usize) -> (r: bool)
    requires
        lo <= hi <= text.len(),
        at + pat.len() <= hi - lo,
    ensures
        r == matches_at(text@.subrange(lo as int, hi as int), pat@, at as int),
{
    let ghost sub = text@.subrange(lo as int, hi as int);
    let mut j: usize = 0;
    while j < pat.len()
        invariant
            lo <= hi <= text.len(),
            at + pat.len() <= hi - lo,
            j <= pat.len(),
            sub == text@.subrange(lo as int, hi as int),
            forall|k: int| 0 <= k < j ==> sub[at + k] == pat@[k],
        decreases pat.len() - j,
    {
        if text[lo + at + j] != pat[j] {
            assert(sub[at + j] != pat@[j as int]);
            return false;
        }
        j += 1;
    }
    true
}

/// Decides whether a nine-digit run stands at offset `at` of `text[lo..hi]`.
pub fn run_at(text: &Vec<char>, lo: usize, hi: usize, at: usize) -> (r: bool)
    requires
        lo <= hi <= text.len(),
        at + 9 <= hi - lo,
    ensures
        r == digit_run_at(text@.subrange(lo as int, hi as int), at as int),
{
    let ghost sub = text@.subrange(lo as int, hi as int);
    let mut j: usize = 0;
    while j < 9
        invariant
            lo <= hi <= text.len(),
            at + 9 <= hi - lo,
            j <= 9,
            sub == text@.subrange(lo as int, hi as int),
            forall|k: int| at <= k < at + j ==> is_digit_char(sub[k]),
        decreases 9 - j,
    {
        if !digit_char(text[lo + at + j]) {
            assert(!is_digit_char(sub[at + j]));
            return false;
        }
        j += 1;
    }
    true
}

/// The first offset at or after `from` where a nine-digit run starts in
/// `text[lo..hi]`, as `first_run_from` names it.
pub fn find_run_in_range(text: &Vec<char>, lo: usize, hi: usize, from: usize) -> (r: Option<usize>)
    requires
        lo <= hi <= text.len(),
        from <= hi - lo,
    ensures
        match r {
            Some(j) => from <= j && j + 9 <= hi - lo && Some(j as int) == first_run_from(
                text@.subrange(lo as int, hi as int),
                from as int,
            ),
            None => first_run_from(text@.subrange(lo as int, hi as int), from as int) is None,
        },
{
    let ghost sub = text@.subrange(lo as int, hi as int);
    let mut i: usize = from;
    while 9 <= hi - lo - i
        invariant
            lo <= hi <= text.len(),
            from <= i <= hi - lo,
            sub == text@.subrange(lo as int, hi as int),
            first_run_from(sub, from as int) == first_run_from(sub, i as int),
        decreases hi - lo - i,
    {
        if run_at(text, lo, hi, i) {
            return Some(i);
        }
        i += 1;
    }
    None
}

/// The first offset at or after `from` in `text[lo..hi]` holding a
/// non-whitespace character, as `skip_spaces_from` names it.
pub fn skip_spaces_in_range(text: &Vec<char>, lo: usize, hi: usize, from: usize) -> (r: usize)
    requires
        lo <= hi <= text.len(),
        from <= hi - lo,
    ensures
        from <= r <= hi - lo,
        r as int == skip_spaces_from(text@.subrange(lo as int, hi as int), from as int),
{
    let ghost sub = text@.subrange(lo as int, hi as int);
    let mut i: usize = from;
    while i < hi - lo && space_char(text[lo + i])
        invariant
            lo <= hi <= text.len(),
            from <= i <= hi - lo,
            sub == text@.subrange(lo as int, hi as int),
            skip_spaces_from(sub, from as int) == skip_spaces_from(sub, i as int),
        decreases hi - lo - i,
    {
        assert(is_space_char(sub[i as int]));
        i += 1;
    }
    i
}

/// The first offset at or after `from` in `text[lo..hi]` holding a newline
/// or carriage return, as `line_end_from` names it.
pub fn line_end_in_range(text: &Vec<char>, lo: usize, hi: usize, from: usize) -> (r: usize)
    requires
        lo <= hi <= text.len(),
        from <= hi - lo,
    ensures
        from <= r <= hi - lo,
        r as int == line_end_from(text@.subrange(lo as int, hi as int), from as int),
{
    let ghost sub = text@.subrange(lo as int, hi as int);
    let mut i: usize = from;
    while i < hi - lo && !(text[lo + i] == '\n' || text[lo + i] == '\r')
        invariant
            lo <= hi <= text.len(),
            from <= i <= hi - lo,
            sub == text@.subrange(lo as int, hi as int),
            line_end_from(sub, from as int) == line_end_from(sub, i as int),
        decreases hi - lo - i,
    {
        assert(!(sub[i as int] == '\n' || sub[i as int] == '\r'));
        i += 1;
    }
    i
}

/// The bounds of `text[lo..hi]` with surrounding whitespace shed, so that
/// the slice between them is `trimmed` of the original slice.
pub fn trim_in_range(text: &Vec<char>, lo: usize, hi: usize) -> (r: (usize, usize))
    requires
        lo <= hi <= text.len(),
    ensures
        lo <= r.0 <= r.1 <= hi,
        text@.subrange(r.0 as int, r.1 as int) == trimmed(text@.subrange(lo as int, hi as int)),
{
    let mut a: usize = lo;
    while a < hi && space_char(text[a])
        invariant
            lo <= a <= hi <= text.len(),
            trim_start(text@.subrange(lo as int, hi as int)) == trim_start(
                text@.subrange(a as int, hi as int),
            ),
        decreases hi - a,
    {
        assert(text@.subrange(a as int, hi as int).drop_first() =~= text@.subrange(
            a + 1,
            hi as int,
        ));
        a += 1;
    }
    assert(trim_start(text@.subrange(lo as int, hi as int)) == text@.subrange(a as int, hi as int));
    let mut b: usize = hi;
    while b > a && space_char(text[b - 1])
        invariant
            lo <= a <= b <= hi <= text.len(),
            trim_end(text@.subrange(a as int, hi as int)) == trim_end(
                text@.subrange(a as int, b as int),
            ),
        decreases b,
    {
        assert(text@.subrange(a as int, b as int).drop_last() =~= text@.subrange(
            a as int,
            b - 1,
        ));
        b -= 1;
    }
    assert(trim_end(text@.subrange(a as int, hi as int)) == text@.subrange(a as int, b as int));
    (a, b)
}

/// A fresh copy of `text[lo..hi]`.
pub fn copy_range(text: &Vec<char>, lo: usize, hi: usize) -> (r: Vec<char>)
    requires
        lo <= hi <= text.len(),
    ensures
        r@ == text@.subrange(lo as int, hi as int),
{
    let mut out: Vec<char> = Vec::new();
    let mut i: usize = lo;
    while i < hi
        invariant
            lo <= i <= hi <= text.len(),
            out@ == text@.subrange(lo as int, i as int),
        decreases hi - i,
    {
        out.push(text[i]);
        assert(text@.subrange(lo as int, i + 1) =~= text@.subrange(lo as int, i as int).push(
            text@[i as int],
        ));
        i += 1;
    }
    out
}

/// The characters of a string slice, in order, as a vector.
pub fn chars_of_str(s: &str) -> (r: Vec<char>)
    ensures
        r@ == s@,
{
    let n = s.unicode_len();
    let mut out: Vec<char> = Vec::new();
    let mut i: usize = 0;
    while i < n
        invariant
            n == s@.len(),
            i <= n,
            out@ == s@.subrange(0, i as int),
        decreases n - i,
    {
        out.push(s.get_char(i));
        assert(s@.subrange(0, i + 1) =~= s@.subrange(0, i as int).push(s@[i as int]));
        i += 1;
    }
    assert(s@.subrange(0, n as int) =~= s@);
    out
}

} // verus!
