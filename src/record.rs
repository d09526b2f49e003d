use vstd::prelude::*;
use crate::coerce::{coerced, Scalar, Value};
use crate::layout::FieldSpec;
use crate::text::same_text;

verus! {

/// A named value of a record: its field's name, its value, and whether coercion fell back.
pub type EntryView = (Seq<char>, Scalar, bool);

/// A field that could not be read: its name and the index of the line it was read from.
pub type FailureView = (Seq<char>, int);

/// One field of a record.
#[derive(Clone, Debug, PartialEq)]
pub struct Entry {
    pub name: String,
    pub value: Value,
    pub fallback: bool,
}

impl View for Entry {
    type V = EntryView;

    open spec fn view(&self) -> EntryView {
        (self.name@, self.value@, self.fallback)
    }
}

/// A record: its fields in declaration order.
#[derive(Clone, Debug, PartialEq)]
pub struct Record {
    pub entries: Vec<Entry>,
}

impl View for Record {
    type V = Seq<EntryView>;

    open spec fn view(&self) -> Seq<EntryView> {
        self.entries@.map_values(|e: Entry| e@)
    }
}

/// A fixed-width field whose range runs past the end of its line.
#[derive(Clone, Debug, PartialEq)]
pub struct FieldExtractionError {
    /// The field's name.
    pub field: String,
    /// The index, from zero, of the line the field was to be read from.
    pub line: usize,
}

impl View for FieldExtractionError {
    type V = FailureView;

    open spec fn view(&self) -> FailureView {
        (self.field@, self.line as int)
    }
}

/// The records decoded from a sequence of lines, and the fields that could not be read.
#[derive(Clone, Debug, PartialEq)]
pub struct Decoded {
    pub records: Vec<Record>,
    pub errors: Vec<FieldExtractionError>,
}

impl View for Decoded {
    type V = (Seq<Seq<EntryView>>, Seq<FailureView>);

    open spec fn view(&self) -> (Seq<Seq<EntryView>>, Seq<FailureView>) {
        (records_of(self.records@), failures_of(self.errors@))
    }
}

/// The characters of each line.
pub open spec fn texts(lines: Seq<String>) -> Seq<Seq<char>> {
    lines.map_values(|s: String| s@)
}

/// What each record holds.
pub open spec fn records_of(v: Seq<Record>) -> Seq<Seq<EntryView>> {
    v.map_values(|r: Record| r@)
}

/// What each failure says.
pub open spec fn failures_of(v: Seq<FieldExtractionError>) -> Seq<FailureView> {
    v.map_values(|e: FieldExtractionError| e@)
}

/// The entry a field gets from its raw text.
pub open spec fn entry_of(f: FieldSpec, raw: Seq<char>) -> EntryView {
    (f.name@, coerced(raw, f.field_type).0, coerced(raw, f.field_type).1)
}

/// The names of a record's fields, in order.
pub open spec fn names_of(r: Seq<EntryView>) -> Seq<Seq<char>> {
    r.map_values(|e: EntryView| e.0)
}

impl Record {
    /// The value of the first field named `name`, if the record has one.
    pub fn get(&self, name: &str) -> (r: Option<&Value>)
        ensures
            r is None <==> forall|i: int| 0 <= i < self@.len() ==> #[trigger] self@[i].0 != name@,
            r is Some ==> exists|i: int|
                0 <= i < self@.len() && #[trigger] self@[i].0 == name@ && r->0@ == self@[i].1
                    && forall|k: int| 0 <= k < i ==> self@[k].0 != name@,
    {
        let mut i: usize = 0;
        while i < self.entries.len()
            invariant
                i <= self.entries@.len(),
                forall|k: int| 0 <= k < i ==> #[trigger] self@[k].0 != name@,
            decreases self.entries@.len() - i,
        {
            if same_text(self.entries[i].name.as_str(), name) {
                assert(self@[i as int].0 == name@);
                return Some(&self.entries[i].value);
            }
            i = i + 1;
        }
        None
    }

    /// Whether the first field named `name` holds a fallback value.
    pub fn fell_back(&self, name: &str) -> (r: bool)
        ensures
            r <==> exists|i: int|
                0 <= i < self@.len() && #[trigger] self@[i].0 == name@ && self@[i].2
                    && forall|k: int| 0 <= k < i ==> self@[k].0 != name@,
    {
        let mut i: usize = 0;
        while i < self.entries.len()
            invariant
                i <= self.entries@.len(),
                forall|k: int| 0 <= k < i ==> #[trigger] self@[k].0 != name@,
            decreases self.entries@.len() - i,
        {
            if same_text(self.entries[i].name.as_str(), name) {
                assert(self@[i as int].0 == name@);
                return self.entries[i].fallback;
            }
            i = i + 1;
        }
        false
    }

    /// The number of fields.
    pub fn len(&self) -> (r: usize)
        ensures
            r == self@.len(),
    {
        self.entries.len()
    }
}

} // verus!
