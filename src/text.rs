use vstd::prelude::*;

verus! {

/// The characters that `char::is_whitespace` accepts (Unicode White_Space).
pub open spec fn is_ws(c: char) -> bool {
    ('\u{9}' <= c && c <= '\u{d}') || c == ' ' || c == '\u{85}' || c == '\u{a0}' || c == '\u{1680}'
        || ('\u{2000}' <= c && c <= '\u{200a}') || c == '\u{2028}' || c == '\u{2029}'
        || c == '\u{202f}' || c == '\u{205f}' || c == '\u{3000}'
}

/// `s` with its leading and trailing whitespace removed.
pub open spec fn trimmed(s: Seq<char>) -> Seq<char>
    decreases s.len(),
{
    if s.len() > 0 && is_ws(s[0]) {
        trimmed(s.drop_first())
    } else if s.len() > 0 && is_ws(s.last()) {
        trimmed(s.drop_last())
    } else {
        s
    }
}

/// `s` without one pair of enclosing double quotes, if it has them.
pub open spec fn unquoted(s: Seq<char>) -> Seq<char> {
    if s.len() >= 2 && s[0] == '"' && s.last() == '"' {
        s.subrange(1, s.len() - 1)
    } else {
        s
    }
}

/// A delimited token as it reaches coercion: trimmed, then unquoted.
pub open spec fn cleaned(s: Seq<char>) -> Seq<char> {
    unquoted(trimmed(s))
}

/// The tokens of `s` between occurrences of `d`; always at least one.
pub open spec fn split_on(s: Seq<char>, d: char) -> Seq<Seq<char>>
    decreases s.len(),
{
    if s.len() == 0 {
        seq![Seq::<char>::empty()]
    } else {
        let r = split_on(s.drop_last(), d);
        if s.last() == d {
            r.push(Seq::<char>::empty())
        } else {
            r.update(r.len() - 1, r.last().push(s.last()))
        }
    }
}

pub proof fn lemma_split_nonempty(s: Seq<char>, d: char)
    ensures
        split_on(s, d).len() >= 1,
    decreases s.len(),
{
    if s.len() > 0 {
        lemma_split_nonempty(s.drop_last(), d);
    }
}

/// The trimmed range of `s.subrange(lo, hi)` equals the text between the bounds found here.
proof fn lemma_trim_range(s: Seq<char>, lo: int, hi: int, a: int, b: int)
    requires
        0 <= lo <= a <= b <= hi <= s.len(),
        forall|k: int| lo <= k < a ==> is_ws(#[trigger] s[k]),
        forall|k: int| b <= k < hi ==> is_ws(#[trigger] s[k]),
        a < b ==> !is_ws(s[a]) && !is_ws(s[b - 1]),
    ensures
        trimmed(s.subrange(lo, hi)) == s.subrange(a, b),
    decreases (a - lo) + (hi - b),
{
    let t = s.subrange(lo, hi);
    if lo < a {
        assert(is_ws(s[lo]));
        assert(t.drop_first() =~= s.subrange(lo + 1, hi));
        lemma_trim_range(s, lo + 1, hi, a, b);
    } else if b < hi {
        if t.len() > 0 && is_ws(t[0]) {
            assert(a == b);
            assert(t.drop_first() =~= s.subrange(lo + 1, hi));
            lemma_trim_range(s, lo + 1, hi, a + 1, b + 1);
            assert(s.subrange(a + 1, b + 1) =~= s.subrange(a, b));
        } else {
            assert(is_ws(s[hi - 1]));
            assert(t.drop_last() =~= s.subrange(lo, hi - 1));
            lemma_trim_range(s, lo, hi - 1, a, b);
        }
    } else {
        assert(t =~= s.subrange(a, b));
    }
}

/// Bounds `(a, b)` such that `s@.subrange(lo, hi)` trimmed is `s@.subrange(a, b)`.
pub fn trim_bounds(s: &str, lo: usize, hi: usize) -> (r: (usize, usize))
    requires
        lo <= hi <= s@.len(),
    ensures
        lo <= r.0 <= r.1 <= hi,
        trimmed(s@.subrange(lo as int, hi as int)) == s@.subrange(r.0 as int, r.1 as int),
{
    let mut a = lo;
    while a < hi && char_is_ws(s.get_char(a))
        invariant
            lo <= a <= hi <= s@.len(),
            forall|k: int| lo <= k < a ==> is_ws(#[trigger] s@[k]),
        decreases hi - a,
    {
        a = a + 1;
    }
    let mut b = hi;
    while b > a && char_is_ws(s.get_char(b - 1))
        invariant
            lo <= a <= b <= hi <= s@.len(),
            a < hi ==> !is_ws(s@[a as int]),
            forall|k: int| lo <= k < a ==> is_ws(#[trigger] s@[k]),
            forall|k: int| b <= k < hi ==> is_ws(#[trigger] s@[k]),
        decreases b - a,
    {
        b = b - 1;
    }
    proof {
        lemma_trim_range(s@, lo as int, hi as int, a as int, b as int);
    }
    (a, b)
}

/// Whether `c` is whitespace in the sense of `is_ws`.
pub fn char_is_ws(c: char) -> (r: bool)
    ensures
        r == is_ws(c),
{
    ('\u{9}' <= c && c <= '\u{d}') || c == ' ' || c == '\u{85}' || c == '\u{a0}' || c == '\u{1680}'
        || ('\u{2000}' <= c && c <= '\u{200a}') || c == '\u{2028}' || c == '\u{2029}'
        || c == '\u{202f}' || c == '\u{205f}' || c == '\u{3000}'
}

/// `s` trimmed of surrounding whitespace.
pub fn trim_text(s: &str) -> (r: String)
    ensures
        r@ == trimmed(s@),
{
    let n = s.unicode_len();
    assert(s@.subrange(0, n as int) =~= s@);
    let (a, b) = trim_bounds(s, 0, n);
    s.substring_char(a, b).to_string()
}

/// Whether two texts hold the same characters.
pub fn same_text(x: &str, y: &str) -> (r: bool)
    ensures
        r == (x@ == y@),
{
    let n = x.unicode_len();
    if n != y.unicode_len() {
        return false;
    }
    let mut i: usize = 0;
    while i < n
        invariant
            n == x@.len() == y@.len(),
            i <= n,
            forall|k: int| 0 <= k < i ==> x@[k] == y@[k],
        decreases n - i,
    {
        if x.get_char(i) != y.get_char(i) {
            return false;
        }
        i = i + 1;
    }
    assert(x@ =~= y@);
    true
}

} // verus!
