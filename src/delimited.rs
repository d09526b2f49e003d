use vstd::prelude::*;
use crate::coerce::coerce;
use crate::layout::FieldSpec;
use crate::record::{entry_of, Entry, EntryView, Record};
use crate::text::{cleaned, split_on, trim_bounds, trimmed, unquoted};

verus! {

/// The record a delimited line gives: one entry per token that has a field, in field order.
pub open spec fn delimited_record(fields: Seq<FieldSpec>, line: Seq<char>, d: char) -> Seq<
    EntryView,
> {
    let toks = split_on(line, d);
    let k = if toks.len() < fields.len() { toks.len() } else { fields.len() };
    Seq::new(k as nat, |i: int| entry_of(fields[i], cleaned(toks[i])))
}

/// The offsets `(start, end)` of each token of `line` between occurrences of `d`.
pub fn token_spans(line: &str, d: char) -> (r: Vec<(usize, usize)>)
    ensures
        r@.len() == split_on(line@, d).len(),
        forall|j: int|
            0 <= j < r@.len() ==> #[trigger] r@[j].0 <= r@[j].1 <= line@.len() && line@.subrange(
                r@[j].0 as int,
                r@[j].1 as int,
            ) == split_on(line@, d)[j],
{
    let n = line.unicode_len();
    let mut spans: Vec<(usize, usize)> = Vec::new();
    let mut start: usize = 0;
    let mut i: usize = 0;
    assert(line@.subrange(0, 0) =~= Seq::<char>::empty());
    while i < n
        invariant
            n == line@.len(),
            start <= i <= n,
            spans@.len() + 1 == split_on(line@.subrange(0, i as int), d).len(),
            forall|j: int|
                0 <= j < spans@.len() ==> #[trigger] spans@[j].0 <= spans@[j].1 <= i
                    && line@.subrange(spans@[j].0 as int, spans@[j].1 as int) == split_on(
                    line@.subrange(0, i as int),
                    d,
                )[j],
            line@.subrange(start as int, i as int) == split_on(line@.subrange(0, i as int), d).last(),
        decreases n - i,
    {
        let c = line.get_char(i);
        let ghost pre = line@.subrange(0, i as int);
        let ghost next = line@.subrange(0, i + 1);
        assert(next.drop_last() =~= pre);
        assert(next.last() == c);
        if c == d {
            spans.push((start, i));
            assert(line@.subrange(i + 1, i + 1) =~= Seq::<char>::empty());
        } else {
            assert(line@.subrange(start as int, i + 1) =~= line@.subrange(start as int, i as int).push(c));
        }
        i = i + 1;
        if c == d {
            start = i;
        }
    }
    assert(line@.subrange(0, n as int) =~= line@);
    spans.push((start, n));
    spans
}

/// The offsets of a token once trimmed and stripped of one pair of enclosing quotes.
fn clean_bounds(line: &str, lo: usize, hi: usize) -> (r: (usize, usize))
    requires
        lo <= hi <= line@.len(),
    ensures
        r.0 <= r.1 <= line@.len(),
        line@.subrange(r.0 as int, r.1 as int) == cleaned(line@.subrange(lo as int, hi as int)),
{
    let (a, b) = trim_bounds(line, lo, hi);
    let ghost t = trimmed(line@.subrange(lo as int, hi as int));
    if b - a >= 2 && line.get_char(a) == '"' && line.get_char(b - 1) == '"' {
        assert(t[0] == line@[a as int]);
        assert(t.last() == line@[b - 1]);
        assert(t.subrange(1, t.len() - 1) =~= line@.subrange(a + 1, b - 1));
        (a + 1, b - 1)
    } else {
        assert(unquoted(t) == t);
        (a, b)
    }
}

/// Decodes one delimited line: the i-th token, trimmed and unquoted, is coerced for the i-th
/// field; fields beyond the last token are left out.
pub fn decode_delimited_line(fields: &Vec<FieldSpec>, line: &str, d: char) -> (r: Record)
    ensures
        r@ == delimited_record(fields@, line@, d),
{
    let spans = token_spans(line, d);
    let k = if spans.len() < fields.len() { spans.len() } else { fields.len() };
    let ghost want = delimited_record(fields@, line@, d);
    let mut entries: Vec<Entry> = Vec::new();
    let mut i: usize = 0;
    while i < k
        invariant
            k == want.len(),
            k <= spans@.len(),
            k <= fields@.len(),
            spans@.len() == split_on(line@, d).len(),
            forall|j: int|
                0 <= j < spans@.len() ==> #[trigger] spans@[j].0 <= spans@[j].1 <= line@.len()
                    && line@.subrange(spans@[j].0 as int, spans@[j].1 as int) == split_on(line@, d)[j],
            want == delimited_record(fields@, line@, d),
            i <= k,
            entries@.len() == i,
            forall|j: int| 0 <= j < i ==> #[trigger] entries@[j]@ == want[j],
        decreases k - i,
    {
        let (lo, hi) = spans[i];
        assert(spans@[i as int].0 <= spans@[i as int].1);
        let (a, b) = clean_bounds(line, lo, hi);
        let raw = line.substring_char(a, b);
        let f = &fields[i];
        let c = coerce(raw, f.field_type);
        entries.push(Entry { name: f.name.clone(), value: c.value, fallback: c.fallback });
        assert(entries@[i as int]@ == entry_of(fields@[i as int], cleaned(split_on(line@, d)[i as int])));
        i = i + 1;
    }
    let r = Record { entries };
    assert(r@ =~= want);
    r
}

/// Decodes every line of a delimited file, one record per line, in order.
pub fn decode_delimited(fields: &Vec<FieldSpec>, lines: &Vec<String>, d: char) -> (r: Vec<Record>)
    ensures
        r@.len() == lines@.len(),
        forall|j: int|
            0 <= j < lines@.len() ==> #[trigger] r@[j]@ == delimited_record(fields@, lines@[j]@, d),
{
    let mut out: Vec<Record> = Vec::new();
    let mut j: usize = 0;
    while j < lines.len()
        invariant
            j <= lines@.len(),
            out@.len() == j,
            forall|k: int|
                0 <= k < j ==> #[trigger] out@[k]@ == delimited_record(fields@, lines@[k]@, d),
        decreases lines@.len() - j,
    {
        let rec = decode_delimited_line(fields, lines[j].as_str(), d);
        out.push(rec);
        j = j + 1;
    }
    out
}

} // verus!
