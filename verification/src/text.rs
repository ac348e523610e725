//! Character-sequence utilities the line classifier is built on: extracting
//! the characters of a string, trimming whitespace, and matching a fixed
//! pattern at a given position.

use vstd::prelude::*;

verus! {

/// The Unicode White_Space code points: the characters that trimming strips.
pub open spec fn is_space_char(c: char) -> bool {
    c == ' ' || c == '\t' || c == '\n' || c == '\r' || c == '\u{b}' || c == '\u{c}'
        || c == '\u{85}' || c == '\u{a0}' || c == '\u{1680}' || c == '\u{2000}' || c == '\u{2001}'
        || c == '\u{2002}' || c == '\u{2003}' || c == '\u{2004}' || c == '\u{2005}'
        || c == '\u{2006}' || c == '\u{2007}' || c == '\u{2008}' || c == '\u{2009}'
        || c == '\u{200a}' || c == '\u{2028}' || c == '\u{2029}' || c == '\u{202f}'
        || c == '\u{205f}' || c == '\u{3000}'
}

pub fn is_space(c: char) -> (r: bool)
    ensures
        r == is_space_char(c),
{
    c == ' ' || c == '\t' || c == '\n' || c == '\r' || c == '\u{b}' || c == '\u{c}'
        || c == '\u{85}' || c == '\u{a0}' || c == '\u{1680}' || c == '\u{2000}' || c == '\u{2001}'
        || c == '\u{2002}' || c == '\u{2003}' || c == '\u{2004}' || c == '\u{2005}'
        || c == '\u{2006}' || c == '\u{2007}' || c == '\u{2008}' || c == '\u{2009}'
        || c == '\u{200a}' || c == '\u{2028}' || c == '\u{2029}' || c == '\u{202f}'
        || c == '\u{205f}' || c == '\u{3000}'
}

/// A sequence with its leading and trailing whitespace removed.
pub open spec fn trim_spec(s: Seq<char>) -> Seq<char>
    decreases s.len(),
{
    if s.len() == 0 {
        s
    } else if is_space_char(s[0]) {
        trim_spec(s.drop_first())
    } else if is_space_char(s.last()) {
        trim_spec(s.drop_last())
    } else {
        s
    }
}

/// Trimming a sequence keeps exactly its longest inner stretch that neither
/// starts nor ends with whitespace.
proof fn lemma_trim_subrange(s: Seq<char>, a: int, b: int)
    requires
        0 <= a <= b <= s.len(),
        forall|i: int| 0 <= i < a ==> is_space_char(s[i]),
        forall|i: int| b <= i < s.len() ==> is_space_char(s[i]),
        a == b || (!is_space_char(s[a]) && !is_space_char(s[b - 1])),
    ensures
        trim_spec(s) == s.subrange(a, b),
    decreases s.len(),
{
    if s.len() == 0 {
        assert(s.subrange(a, b) =~= s);
    } else if is_space_char(s[0]) {
        let t = s.drop_first();
        if a == b {
            if a >= 1 {
                lemma_trim_subrange(t, a - 1, b - 1);
                assert(t.subrange(a - 1, b - 1) =~= s.subrange(a, b));
            } else {
                lemma_trim_subrange(t, 0, 0);
                assert(t.subrange(0, 0) =~= s.subrange(a, b));
            }
        } else {
            // s[a] is not whitespace while s[0] is, so a >= 1.
            assert(a >= 1);
            lemma_trim_subrange(t, a - 1, b - 1);
            assert(t.subrange(a - 1, b - 1) =~= s.subrange(a, b));
        }
    } else if is_space_char(s.last()) {
        let t = s.drop_last();
        if a == b {
            if b <= s.len() - 1 {
                lemma_trim_subrange(t, a, b);
                assert(t.subrange(a, b) =~= s.subrange(a, b));
            } else {
                // a == b == s.len(): everything left of b is whitespace,
                // contradicting that s[0] is not.
                assert(is_space_char(s[0]));
                assert(false);
            }
        } else {
            assert(b - 1 <= s.len() - 1);
            assert(b <= s.len() - 1);
            lemma_trim_subrange(t, a, b);
            assert(t.subrange(a, b) =~= s.subrange(a, b));
        }
    } else {
        // No whitespace at either end: a == 0 and b == s.len().
        assert(a == 0);
        assert(b == s.len());
        assert(s.subrange(a, b) =~= s);
    }
}

/// The characters of a string as a vector, in order.
pub fn chars_vec(s: &str) -> (r: Vec<char>)
    ensures
        r@ == s@,
{
    let n = s.unicode_len();
    let mut r: Vec<char> = Vec::new();
    let mut i: usize = 0;
    while i < n
        invariant
            i <= n,
            n == s@.len(),
            r@ == s@.take(i as int),
        decreases n - i,
    {
        let c = s.get_char(i);
        r.push(c);
        i = i + 1;
        proof {
            assert(r@ =~= s@.take(i as int));
        }
    }
    proof {
        assert(r@ =~= s@);
    }
    r
}

/// The bounds of the trimmed part of `hay[a..b]`: trimming that stretch
/// leaves exactly `hay[r.0..r.1]`.
pub fn trim_bounds(hay: &Vec<char>, a: usize, b: usize) -> (r: (usize, usize))
    requires
        a <= b <= hay@.len(),
    ensures
        a <= r.0 <= r.1 <= b,
        trim_spec(hay@.subrange(a as int, b as int)) == hay@.subrange(r.0 as int, r.1 as int),
{
    let mut lo: usize = a;
    while lo < b && is_space(hay[lo])
        invariant
            a <= lo <= b <= hay@.len(),
            forall|i: int| a <= i < lo ==> is_space_char(hay@[i]),
        decreases b - lo,
    {
        lo = lo + 1;
    }
    let mut hi: usize = b;
    while hi > lo && is_space(hay[hi - 1])
        invariant
            a <= lo <= hi <= b <= hay@.len(),
            forall|i: int| a <= i < lo ==> is_space_char(hay@[i]),
            forall|i: int| hi <= i < b ==> is_space_char(hay@[i]),
        decreases hi,
    {
        hi = hi - 1;
    }
    proof {
        let s = hay@.subrange(a as int, b as int);
        lemma_trim_subrange(s, lo - a, hi - a);
        assert(s.subrange(lo - a, hi - a) =~= hay@.subrange(lo as int, hi as int));
    }
    (lo, hi)
}

/// Whether `pat` occurs in `s` starting exactly at position `i`.
pub open spec fn match_at(s: Seq<char>, pat: Seq<char>, i: int) -> bool {
    0 <= i && i + pat.len() <= s.len() && s.subrange(i, i + pat.len()) == pat
}

/// Whether `hay[a..b]` is exactly the sequence `pat`.
pub fn range_eq(hay: &Vec<char>, a: usize, b: usize, pat: &Vec<char>) -> (r: bool)
    requires
        a <= b <= hay@.len(),
    ensures
        r == (hay@.subrange(a as int, b as int) == pat@),
{
    let m = b - a;
    if m != pat.len() {
        proof {
            assert(hay@.subrange(a as int, b as int).len() == m);
        }
        return false;
    }
    let mut j: usize = 0;
    while j < m
        invariant
            j <= m,
            a <= b <= hay@.len(),
            m == b - a,
            m == pat@.len(),
            forall|k: int| 0 <= k < j ==> hay@[a + k] == pat@[k],
        decreases m - j,
    {
        if hay[a + j] != pat[j] {
            proof {
                assert(hay@.subrange(a as int, b as int)[j as int] == hay@[a + j]);
            }
            return false;
        }
        j = j + 1;
    }
    proof {
        assert(hay@.subrange(a as int, b as int) =~= pat@);
    }
    true
}

/// Whether `pat` stands in `hay` exactly at position `pos`.
pub fn matches_at(hay: &Vec<char>, pos: usize, pat: &Vec<char>) -> (r: bool)
    requires
        pos <= hay@.len(),
    ensures
        r == match_at(hay@, pat@, pos as int),
{
    let m = pat.len();
    if m > hay.len() - pos {
        return false;
    }
    range_eq(hay, pos, pos + m, pat)
}

} // verus!
