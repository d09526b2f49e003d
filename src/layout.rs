use vstd::prelude::*;
use crate::coerce::FieldType;
use crate::text::same_text;

verus! {

/// How the fields of a data file are laid out on its lines.
#[derive(Clone, Copy, Debug, PartialEq, Eq, Structural)]
pub enum FileKind {
    /// Fields at fixed character offsets, possibly over several lines.
    Fixed,
    /// One field per token, tokens split by a delimiter.
    Delimited,
}

/// One declared field.
#[derive(Clone, Debug, PartialEq)]
pub struct FieldSpec {
    pub name: String,
    pub description: String,
    /// The offset, from one, at which the field starts on its line (fixed-width only).
    pub position: usize,
    /// The field's width in characters (fixed-width only).
    pub size: usize,
    pub field_type: FieldType,
}

/// The description of a data file's structure.
#[derive(Clone, Debug, PartialEq)]
pub struct Layout {
    pub name: String,
    pub version: usize,
    pub delimiter: Option<char>,
    pub kind: FileKind,
    pub destination: String,
    pub storage_name: String,
    pub fields: Vec<FieldSpec>,
}

/// Why a layout description was refused.
#[derive(Clone, Debug, PartialEq)]
pub enum LayoutError {
    /// The file type tag names no known kind.
    UnknownKind,
    /// Two fields share this name.
    DuplicateField(String),
    /// This field of a fixed-width layout starts at offset zero.
    ZeroPosition(String),
}

/// Where decoded records are to be delivered.
#[derive(Clone, Copy, Debug, PartialEq, Eq, Structural)]
pub struct Route {
    /// Each record is published to the queue, one at a time.
    pub queue: bool,
    /// All records are written to the store together.
    pub store: bool,
}

pub open spec fn text_queue() -> Seq<char> {
    seq!['q', 'u', 'e', 'u', 'e']
}

pub open spec fn text_both() -> Seq<char> {
    seq!['b', 'o', 't', 'h']
}

pub open spec fn text_repository() -> Seq<char> {
    seq!['r', 'e', 'p', 'o', 's', 'i', 't', 'o', 'r', 'y']
}

/// The route a destination tag names: `queue`, `repository`, or `both`.
pub open spec fn route_of(t: Seq<char>) -> Option<Route> {
    if t == text_queue() {
        Some(Route { queue: true, store: false })
    } else if t == text_repository() {
        Some(Route { queue: false, store: true })
    } else if t == text_both() {
        Some(Route { queue: true, store: true })
    } else {
        None
    }
}

pub open spec fn text_fixed_lower() -> Seq<char> {
    seq!['f', 'i', 'x', 'e', 'd']
}

pub open spec fn text_fixed_upper() -> Seq<char> {
    seq!['F', 'i', 'x', 'e', 'd']
}

pub open spec fn text_delimited_lower() -> Seq<char> {
    seq!['d', 'e', 'l', 'i', 'm', 'i', 't', 'e', 'd']
}

pub open spec fn text_delimited_upper() -> Seq<char> {
    seq!['D', 'e', 'l', 'i', 'm', 'i', 't', 'e', 'd']
}

/// The kind a file type tag names.
pub open spec fn kind_of_tag(t: Seq<char>) -> Option<FileKind> {
    if t == text_fixed_lower() || t == text_fixed_upper() {
        Some(FileKind::Fixed)
    } else if t == text_delimited_lower() || t == text_delimited_upper() {
        Some(FileKind::Delimited)
    } else {
        None
    }
}

/// Whether no two fields share a name.
pub open spec fn names_unique(fields: Seq<FieldSpec>) -> bool {
    forall|i: int, j: int|
        0 <= i < j < fields.len() ==> #[trigger] fields[i].name@ != #[trigger] fields[j].name@
}

/// Whether `n` is the name of two fields.
pub open spec fn is_duplicate(fields: Seq<FieldSpec>, n: Seq<char>) -> bool {
    exists|i: int, j: int|
        0 <= i < j < fields.len() && #[trigger] fields[i].name@ == n && #[trigger] fields[j].name@
            == n
}

/// Whether `n` is the name of a field that starts at offset zero.
pub open spec fn is_zero_positioned(fields: Seq<FieldSpec>, n: Seq<char>) -> bool {
    exists|i: int| 0 <= i < fields.len() && #[trigger] fields[i].name@ == n && fields[i].position == 0
}

/// Whether every field of a layout of this kind has a usable position.
pub open spec fn positions_valid(kind: FileKind, fields: Seq<FieldSpec>) -> bool {
    kind == FileKind::Fixed ==> forall|i: int| 0 <= i < fields.len() ==> #[trigger] fields[i].position >= 1
}

/// Whether a layout holds what validation establishes.
pub open spec fn layout_wf(l: Layout) -> bool {
    names_unique(l.fields@) && positions_valid(l.kind, l.fields@)
}

/// The delimiter of a delimited layout: the declared one, else a comma.
pub open spec fn delimiter_of(l: Layout) -> char {
    match l.delimiter {
        Some(d) => d,
        None => ',',
    }
}

impl FileKind {
    /// The kind a file type tag names: `fixed` or `delimited`, in lower case or capitalised.
    pub fn from_tag(t: &str) -> (r: Option<FileKind>)
        ensures
            r == kind_of_tag(t@),
    {
        proof {
            reveal_strlit("fixed");
            reveal_strlit("Fixed");
            reveal_strlit("delimited");
            reveal_strlit("Delimited");
            assert("fixed"@ =~= text_fixed_lower());
            assert("Fixed"@ =~= text_fixed_upper());
            assert("delimited"@ =~= text_delimited_lower());
            assert("Delimited"@ =~= text_delimited_upper());
        }
        if same_text(t, "fixed") || same_text(t, "Fixed") {
            Some(FileKind::Fixed)
        } else if same_text(t, "delimited") || same_text(t, "Delimited") {
            Some(FileKind::Delimited)
        } else {
            None
        }
    }
}

/// The name of a field that repeats an earlier one, if any.
fn find_duplicate(fields: &Vec<FieldSpec>) -> (r: Option<String>)
    ensures
        r is None <==> names_unique(fields@),
        r is Some ==> is_duplicate(fields@, r->0@),
{
    let mut j: usize = 0;
    while j < fields.len()
        invariant
            j <= fields@.len(),
            forall|a: int, b: int|
                0 <= a < b < j ==> #[trigger] fields@[a].name@ != #[trigger] fields@[b].name@,
        decreases fields@.len() - j,
    {
        let mut i: usize = 0;
        while i < j
            invariant
                i <= j < fields@.len(),
                forall|a: int| 0 <= a < i ==> #[trigger] fields@[a].name@ != fields@[j as int].name@,
            decreases j - i,
        {
            if same_text(fields[i].name.as_str(), fields[j].name.as_str()) {
                assert(fields@[i as int].name@ == fields@[j as int].name@);
                return Some(fields[j].name.clone());
            }
            i = i + 1;
        }
        j = j + 1;
    }
    None
}

/// The name of a field at offset zero, if any.
fn find_zero_position(fields: &Vec<FieldSpec>) -> (r: Option<String>)
    ensures
        r is None <==> forall|i: int| 0 <= i < fields@.len() ==> #[trigger] fields@[i].position >= 1,
        r is Some ==> is_zero_positioned(fields@, r->0@),
{
    let mut i: usize = 0;
    while i < fields.len()
        invariant
            i <= fields@.len(),
            forall|k: int| 0 <= k < i ==> #[trigger] fields@[k].position >= 1,
        decreases fields@.len() - i,
    {
        if fields[i].position == 0 {
            assert(fields@[i as int].name@ == fields[i as int].name@);
            return Some(fields[i].name.clone());
        }
        i = i + 1;
    }
    None
}

impl Layout {
    /// Builds a layout from its description: the file type tag must name a kind, field names
    /// must be unique, and a fixed-width field must start at offset one or later.
    pub fn new(
        name: String,
        version: usize,
        delimiter: Option<char>,
        file_type: &str,
        destination: String,
        storage_name: String,
        fields: Vec<FieldSpec>,
    ) -> (r: Result<Layout, LayoutError>)
        ensures
            r is Ok <==> kind_of_tag(file_type@) is Some && names_unique(fields@)
                && positions_valid(kind_of_tag(file_type@)->0, fields@),
            r is Ok ==> r->Ok_0.kind == kind_of_tag(file_type@)->0 && r->Ok_0.fields@ == fields@
                && r->Ok_0.name@ == name@ && r->Ok_0.version == version && r->Ok_0.delimiter
                == delimiter && r->Ok_0.destination@ == destination@ && r->Ok_0.storage_name@
                == storage_name@ && layout_wf(r->Ok_0),
            r matches Err(LayoutError::UnknownKind) <==> kind_of_tag(file_type@) is None,
            r matches Err(LayoutError::DuplicateField(n)) ==> kind_of_tag(file_type@) is Some
                && is_duplicate(fields@, n@),
            kind_of_tag(file_type@) is Some && !names_unique(fields@) ==> r matches Err(
                LayoutError::DuplicateField(_),
            ),
            r matches Err(LayoutError::ZeroPosition(n)) ==> kind_of_tag(file_type@) is Some
                && names_unique(fields@) && is_zero_positioned(fields@, n@),
    {
        let kind = match FileKind::from_tag(file_type) {
            Some(k) => k,
            None => {
                return Err(LayoutError::UnknownKind);
            },
        };
        if let Some(n) = find_duplicate(&fields) {
            return Err(LayoutError::DuplicateField(n));
        }
        if kind == FileKind::Fixed {
            if let Some(n) = find_zero_position(&fields) {
                return Err(LayoutError::ZeroPosition(n));
            }
        }
        Ok(Layout { name, version, delimiter, kind, destination, storage_name, fields })
    }

    /// Where this layout's records go, if its destination tag names a route.
    pub fn route(&self) -> (r: Option<Route>)
        ensures
            r == route_of(self.destination@),
    {
        proof {
            reveal_strlit("queue");
            reveal_strlit("repository");
            reveal_strlit("both");
            assert("queue"@ =~= text_queue());
            assert("repository"@ =~= text_repository());
            assert("both"@ =~= text_both());
        }
        let t = self.destination.as_str();
        if same_text(t, "queue") {
            Some(Route { queue: true, store: false })
        } else if same_text(t, "repository") {
            Some(Route { queue: false, store: true })
        } else if same_text(t, "both") {
            Some(Route { queue: true, store: true })
        } else {
            None
        }
    }

    /// The delimiter that splits the tokens of this layout's lines.
    pub fn delimiter_or_default(&self) -> (r: char)
        ensures
            r == delimiter_of(*self),
    {
        match self.delimiter {
            Some(d) => d,
            None => ',',
        }
    }
}

} // verus!
