use vstd::prelude::*;
use crate::coerce::coerced;
use crate::delimited::{decode_delimited, delimited_record};
use crate::fixed::{decode_fixed, extract, fixed_fields, fixed_records};
use crate::layout::{delimiter_of, FieldSpec, FileKind, Layout};
use crate::record::{
    names_of, records_of, texts, Decoded, EntryView, FailureView, FieldExtractionError,
};
use crate::text::{cleaned, lemma_split_nonempty, split_on, trimmed};

verus! {

/// The records and the failed fields that a layout reads from a sequence of lines.
pub open spec fn decoded(l: Layout, lines: Seq<Seq<char>>) -> (Seq<Seq<EntryView>>, Seq<FailureView>) {
    match l.kind {
        FileKind::Fixed => fixed_records(l.fields@, lines, 0),
        FileKind::Delimited => (
            Seq::new(lines.len(), |j: int| delimited_record(l.fields@, lines[j], delimiter_of(l))),
            seq![],
        ),
    }
}

/// Decodes the lines of a data file by the layout's kind.
pub fn decode(layout: &Layout, lines: &Vec<String>) -> (r: Decoded)
    ensures
        r@ == decoded(*layout, texts(lines@)),
{
    match layout.kind {
        FileKind::Fixed => decode_fixed(&layout.fields, lines),
        FileKind::Delimited => {
            let d = layout.delimiter_or_default();
            let records = decode_delimited(&layout.fields, lines, d);
            let errors: Vec<FieldExtractionError> = Vec::new();
            let r = Decoded { records, errors };
            assert(records_of(r.records@) =~= decoded(*layout, texts(lines@)).0);
            assert(r@.1 =~= Seq::<FailureView>::empty());
            r
        },
    }
}

/// A delimited line of `k` tokens gives a record of the first `min(k, n)` of the `n` fields,
/// named in declaration order, each holding its token trimmed, unquoted and coerced to the
/// field's type.
pub proof fn lemma_delimited_shape(fields: Seq<FieldSpec>, line: Seq<char>, d: char)
    ensures
        ({
            let toks = split_on(line, d);
            let r = delimited_record(fields, line, d);
            let k = if toks.len() < fields.len() { toks.len() } else { fields.len() };
            &&& r.len() == k
            &&& names_of(r) == fields.take(k as int).map_values(|f: FieldSpec| f.name@)
            &&& forall|i: int|
                0 <= i < k ==> (#[trigger] r[i]).1 == coerced(cleaned(toks[i]), fields[i].field_type).0
                    && r[i].2 == coerced(cleaned(toks[i]), fields[i].field_type).1
        }),
{
    let toks = split_on(line, d);
    let r = delimited_record(fields, line, d);
    let k = if toks.len() < fields.len() { toks.len() } else { fields.len() };
    lemma_split_nonempty(line, d);
    assert(names_of(r) =~= fields.take(k as int).map_values(|f: FieldSpec| f.name@));
}

/// A fixed-width field whose position lies before the cursor is read from the next line, with
/// offsets counted from that line's start, as though the record had begun there; when no line
/// is left the record ends with the fields already read and no failure.
pub proof fn lemma_continuation(
    fields: Seq<FieldSpec>,
    lines: Seq<Seq<char>>,
    i: int,
    li: int,
    cursor: int,
)
    requires
        0 <= i < fields.len(),
        fields[i].position < cursor,
    ensures
        li + 1 >= lines.len() ==> fixed_fields(fields, lines, i, li, cursor) == (
            Seq::<EntryView>::empty(),
            Seq::<FailureView>::empty(),
            0nat,
        ),
        li + 1 < lines.len() ==> ({
            let a = fixed_fields(fields, lines, i, li, cursor);
            let b = fixed_fields(fields, lines, i, li + 1, 0);
            a.0 == b.0 && a.1 == b.1 && a.2 == b.2 + 1
        }),
{
}

/// A fixed-width field whose range runs past the end of its line is reported as a failure
/// naming the field and the line, and the fields after it are still read.
pub proof fn lemma_short_line(
    fields: Seq<FieldSpec>,
    lines: Seq<Seq<char>>,
    i: int,
    li: int,
    cursor: int,
)
    requires
        0 <= i < fields.len(),
        fields[i].position >= cursor,
        0 <= li < lines.len(),
        fields[i].position - 1 + fields[i].size > lines[li].len(),
    ensures
        ({
            let f = fields[i];
            let a = fixed_fields(fields, lines, i, li, cursor);
            let rest = fixed_fields(fields, lines, i + 1, li, f.position + f.size - 1);
            &&& extract(f, lines[li]) is None
            &&& a.0 == rest.0
            &&& a.1 == seq![(f.name@, li)] + rest.1
        }),
{
}

/// Decoding is a function of the layout and the lines: two decodings of the same input agree.
pub proof fn lemma_decode_deterministic(l: Layout, lines: Seq<String>, a: Decoded, b: Decoded)
    requires
        a@ == decoded(l, texts(lines)),
        b@ == decoded(l, texts(lines)),
    ensures
        a@ == b@,
{
}

/// An empty data file gives no record and no failure.
pub proof fn lemma_empty_file(l: Layout)
    ensures
        decoded(l, seq![]).0.len() == 0,
        decoded(l, seq![]).1.len() == 0,
{
}

/// A fixed-width field reads exactly the characters at offsets `[position - 1,
/// position - 1 + size)` of its line, trimmed.
pub proof fn lemma_fixed_slice(f: FieldSpec, line: Seq<char>)
    requires
        f.position >= 1,
        f.position - 1 + f.size <= line.len(),
    ensures
        extract(f, line) == Some(
            trimmed(line.subrange(f.position - 1, f.position - 1 + f.size)),
        ),
{
}

} // verus!
