use vstd::prelude::*;
use crate::coerce::coerce;
use crate::layout::FieldSpec;
use crate::record::{
    entry_of, failures_of, records_of, texts, Decoded, Entry, EntryView, FailureView,
    FieldExtractionError, Record,
};
use crate::text::{trim_bounds, trimmed};

verus! {

/// The trimmed text of a fixed-width field on a line: the characters at offsets
/// `[position - 1, position - 1 + size)`, or nothing where that range is not on the line.
pub open spec fn extract(f: FieldSpec, line: Seq<char>) -> Option<Seq<char>> {
    if f.position >= 1 && f.position - 1 + f.size <= line.len() {
        Some(trimmed(line.subrange(f.position - 1, f.position - 1 + f.size)))
    } else {
        None
    }
}

/// Reading fields `i..` of one record, with line `li` active and the cursor at `cursor`:
/// the entries read, the fields that could not be read, and how many further lines were taken.
///
/// A field whose position lies before the cursor starts on the next line, whose offsets count
/// afresh from its own start; if there is no next line the record ends there. After each field
/// the cursor stands at `position + size - 1`.
pub open spec fn fixed_fields(
    fields: Seq<FieldSpec>,
    lines: Seq<Seq<char>>,
    i: int,
    li: int,
    cursor: int,
) -> (Seq<EntryView>, Seq<FailureView>, nat)
    decreases fields.len() - i,
{
    if i < 0 || i >= fields.len() {
        (seq![], seq![], 0)
    } else if fields[i].position < cursor && li + 1 >= lines.len() {
        (seq![], seq![], 0)
    } else {
        let f = fields[i];
        let adv = f.position < cursor;
        let l = if adv { li + 1 } else { li };
        let rest = fixed_fields(fields, lines, i + 1, l, f.position + f.size - 1);
        let more: nat = if adv { rest.2 + 1 } else { rest.2 };
        match extract(f, lines[l]) {
            Some(raw) => (seq![entry_of(f, raw)] + rest.0, rest.1, more),
            None => (rest.0, seq![(f.name@, l)] + rest.1, more),
        }
    }
}

/// The records of a fixed-width file from line `li` on, and the fields that could not be read.
pub open spec fn fixed_records(fields: Seq<FieldSpec>, lines: Seq<Seq<char>>, li: int) -> (Seq<
    Seq<EntryView>,
>, Seq<FailureView>)
    decreases lines.len() - li,
{
    if li < 0 || li >= lines.len() {
        (seq![], seq![])
    } else {
        let r = fixed_fields(fields, lines, 0, li, 0);
        let next = li + 1 + r.2;
        if next >= lines.len() {
            (seq![r.0], r.1)
        } else {
            let rest = fixed_records(fields, lines, next);
            (seq![r.0] + rest.0, r.1 + rest.1)
        }
    }
}

/// The lines a record takes stay within the file.
pub proof fn lemma_fixed_fields_within(
    fields: Seq<FieldSpec>,
    lines: Seq<Seq<char>>,
    i: int,
    li: int,
    cursor: int,
)
    requires
        0 <= li < lines.len(),
    ensures
        li + fixed_fields(fields, lines, i, li, cursor).2 < lines.len(),
    decreases fields.len() - i,
{
    if i < 0 || i >= fields.len() {
    } else if fields[i].position < cursor && li + 1 >= lines.len() {
    } else {
        let f = fields[i];
        let l = if f.position < cursor { li + 1 } else { li };
        lemma_fixed_fields_within(fields, lines, i + 1, l, f.position + f.size - 1);
    }
}

/// The trimmed text of a fixed-width field on a line, if its range lies on the line.
pub fn extract_field(f: &FieldSpec, line: &str) -> (r: Option<String>)
    ensures
        r is Some <==> extract(*f, line@) is Some,
        r is Some ==> r->0@ == extract(*f, line@)->0,
{
    let n = line.unicode_len();
    if f.position == 0 || f.position - 1 > n || f.size > n - (f.position - 1) {
        None
    } else {
        let a = f.position - 1;
        let (x, y) = trim_bounds(line, a, a + f.size);
        Some(line.substring_char(x, y).to_string())
    }
}

/// Decodes one record of a fixed-width file starting at line `li`. Fields that cannot be read
/// are left out of the record and reported in `errors`. Returns the record and the index of
/// the last line it took.
pub fn decode_fixed_record(
    fields: &Vec<FieldSpec>,
    lines: &Vec<String>,
    li: usize,
    errors: &mut Vec<FieldExtractionError>,
) -> (r: (Record, usize))
    requires
        li < lines@.len(),
    ensures
        r.0@ == fixed_fields(fields@, texts(lines@), 0, li as int, 0).0,
        failures_of(final(errors)@) == failures_of(old(errors)@) + fixed_fields(
            fields@,
            texts(lines@),
            0,
            li as int,
            0,
        ).1,
        r.1 == li + fixed_fields(fields@, texts(lines@), 0, li as int, 0).2,
        r.1 < lines@.len(),
{
    let ghost ls = texts(lines@);
    let ghost total = fixed_fields(fields@, ls, 0, li as int, 0);
    proof {
        lemma_fixed_fields_within(fields@, ls, 0, li as int, 0);
    }
    let mut entries: Vec<Entry> = Vec::new();
    let mut l: usize = li;
    let mut c1: u128 = 1;
    let mut i: usize = 0;
    while i < fields.len()
        invariant
            ls == texts(lines@),
            total == fixed_fields(fields@, ls, 0, li as int, 0),
            i <= fields@.len(),
            li <= l < lines@.len(),
            c1 <= 2 * (usize::MAX as u128) + 1,
            entries@.map_values(|e: Entry| e@) + fixed_fields(fields@, ls, i as int, l as int, c1 - 1).0
                == total.0,
            failures_of(errors@) + fixed_fields(fields@, ls, i as int, l as int, c1 - 1).1
                == failures_of(old(errors)@) + total.1,
            (l - li) + fixed_fields(fields@, ls, i as int, l as int, c1 - 1).2 == total.2,
        decreases fields@.len() - i,
    {
        let ghost rest = fixed_fields(fields@, ls, i as int, l as int, c1 - 1);
        let f = &fields[i];
        let adv = (f.position as u128) + 1 < c1;
        if adv && l >= lines.len() - 1 {
            assert(rest == (Seq::<EntryView>::empty(), Seq::<FailureView>::empty(), 0nat));
            assert(entries@.map_values(|e: Entry| e@) =~= total.0);
            assert(failures_of(errors@) =~= failures_of(old(errors)@) + total.1);
            i = fields.len();
        } else {
            if adv {
                l = l + 1;
            }
            let ghost next = fixed_fields(fields@, ls, i + 1, l as int, f.position + f.size - 1);
            let ghost old_entries = entries@;
            let ghost old_errors = errors@;
            match extract_field(f, lines[l].as_str()) {
                Some(raw) => {
                    let c = coerce(raw.as_str(), f.field_type);
                    entries.push(Entry { name: f.name.clone(), value: c.value, fallback: c.fallback });
                    assert(entries@.map_values(|e: Entry| e@) =~= old_entries.map_values(
                        |e: Entry| e@,
                    ).push(entry_of(*f, raw@)));
                    assert(entries@.map_values(|e: Entry| e@) + next.0 =~= old_entries.map_values(
                        |e: Entry| e@,
                    ) + rest.0);
                },
                None => {
                    errors.push(FieldExtractionError { field: f.name.clone(), line: l });
                    assert(failures_of(errors@) =~= failures_of(old_errors).push((f.name@, l as int)));
                    assert(failures_of(errors@) + next.1 =~= failures_of(old_errors) + rest.1);
                },
            }
            c1 = (f.position as u128) + (f.size as u128);
            i = i + 1;
        }
    }
    assert(entries@.map_values(|e: Entry| e@) =~= total.0);
    assert(failures_of(errors@) =~= failures_of(old(errors)@) + total.1);
    (Record { entries }, l)
}

/// Decodes every record of a fixed-width file, in order, with the fields that could not be read.
pub fn decode_fixed(fields: &Vec<FieldSpec>, lines: &Vec<String>) -> (r: Decoded)
    ensures
        r@ == fixed_records(fields@, texts(lines@), 0),
{
    let ghost ls = texts(lines@);
    let ghost total = fixed_records(fields@, ls, 0);
    let mut records: Vec<Record> = Vec::new();
    let mut errors: Vec<FieldExtractionError> = Vec::new();
    let mut li: usize = 0;
    while li < lines.len()
        invariant
            ls == texts(lines@),
            ls.len() == lines@.len(),
            total == fixed_records(fields@, ls, 0),
            li <= lines@.len(),
            records_of(records@) + fixed_records(fields@, ls, li as int).0 == total.0,
            failures_of(errors@) + fixed_records(fields@, ls, li as int).1 == total.1,
        decreases lines@.len() - li,
    {
        let ghost here = fixed_records(fields@, ls, li as int);
        let ghost rec = fixed_fields(fields@, ls, 0, li as int, 0);
        let ghost old_records = records@;
        let ghost old_errors = errors@;
        let (record, last) = decode_fixed_record(fields, lines, li, &mut errors);
        records.push(record);
        li = last + 1;
        let ghost rest = fixed_records(fields@, ls, li as int);
        assert(records_of(records@) =~= records_of(old_records).push(rec.0));
        assert(records_of(records@) + rest.0 =~= records_of(old_records) + here.0);
        assert(failures_of(errors@) + rest.1 =~= failures_of(old_errors) + here.1);
    }
    assert(records_of(records@) =~= total.0);
    assert(failures_of(errors@) =~= total.1);
    Decoded { records, errors }
}

} // verus!
