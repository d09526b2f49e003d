use text_file_interpreter::coerce::{coerce, parse_bool, parse_int, is_float_literal, FieldType, Value};
use text_file_interpreter::decode::decode;
use text_file_interpreter::delimited::{decode_delimited_line, token_spans};
use text_file_interpreter::fixed::{decode_fixed, extract_field};
use text_file_interpreter::layout::{FieldSpec, FileKind, Layout, LayoutError, Route};
use text_file_interpreter::record::{Decoded, Record};
use text_file_interpreter::text::trim_text;

fn field(name: &str, position: usize, size: usize, ty: &str) -> FieldSpec {
    FieldSpec {
        name: name.to_string(),
        description: String::new(),
        position,
        size,
        field_type: FieldType::from_name(ty),
    }
}

fn layout(kind: &str, delimiter: Option<char>, fields: Vec<FieldSpec>) -> Layout {
    Layout::new(
        "sample".to_string(),
        1,
        delimiter,
        kind,
        "queue".to_string(),
        "records".to_string(),
        fields,
    )
    .unwrap()
}

fn lines(v: &[&str]) -> Vec<String> {
    v.iter().map(|s| s.to_string()).collect()
}

fn text(s: &str) -> Value {
    Value::Text(s.to_string())
}

fn names(r: &Record) -> Vec<String> {
    r.entries.iter().map(|e| e.name.clone()).collect()
}

fn id_name_layout() -> Layout {
    layout("delimited", Some(','), vec![field("id", 1, 0, "int"), field("name", 2, 0, "string")])
}

fn code_qty(qty_position: usize) -> Layout {
    layout("fixed", None, vec![field("code", 1, 3, "string"), field("qty", qty_position, 5, "int")])
}

#[test]
fn delimited_line_with_all_tokens() {
    let d = decode(&id_name_layout(), &lines(&["42, Alice"]));
    assert_eq!(d.records.len(), 1);
    let r = &d.records[0];
    assert_eq!(names(r), vec!["id".to_string(), "name".to_string()]);
    assert_eq!(r.get("id"), Some(&Value::Int(42)));
    assert_eq!(r.get("name"), Some(&text("Alice")));
    assert!(d.errors.is_empty());
}

#[test]
fn delimited_line_with_one_token() {
    let d = decode(&id_name_layout(), &lines(&["7"]));
    let r = &d.records[0];
    assert_eq!(r.len(), 1);
    assert_eq!(r.get("id"), Some(&Value::Int(7)));
    assert_eq!(r.get("name"), None);
}

#[test]
fn delimited_record_size_is_min_of_tokens_and_fields() {
    let fields = vec![field("a", 1, 0, "string"), field("b", 2, 0, "string"), field("c", 3, 0, "string")];
    let two = decode_delimited_line(&fields, "x;y", ';');
    assert_eq!(names(&two), vec!["a".to_string(), "b".to_string()]);
    let five = decode_delimited_line(&fields, "1;2;3;4;5", ';');
    assert_eq!(names(&five), vec!["a".to_string(), "b".to_string(), "c".to_string()]);
    assert_eq!(five.get("c"), Some(&text("3")));
    let empty = decode_delimited_line(&fields, "", ';');
    assert_eq!(names(&empty), vec!["a".to_string()]);
    assert_eq!(empty.get("a"), Some(&text("")));
}

#[test]
fn token_spans_split_on_every_delimiter() {
    assert_eq!(token_spans("a,,bc,", ','), vec![(0, 1), (2, 2), (3, 5), (6, 6)]);
    assert_eq!(token_spans("", ','), vec![(0, 0)]);
}

#[test]
fn quote_and_trim() {
    let fields = vec![field("v", 1, 0, "string"), field("n", 2, 0, "int")];
    let r = decode_delimited_line(&fields, "  42 ,\"42\"", ',');
    assert_eq!(r.get("v"), Some(&text("42")));
    assert_eq!(r.get("n"), Some(&Value::Int(42)));
    let r = decode_delimited_line(&fields, " \"a b\" , \"", ',');
    assert_eq!(r.get("v"), Some(&text("a b")));
    assert_eq!(r.get("n"), Some(&Value::Int(0)));
    assert!(r.fell_back("n"));
    let r = decode_delimited_line(&fields, "\"\"x\"\"", ',');
    assert_eq!(r.get("v"), Some(&text("\"x\"")));
}

#[test]
fn default_delimiter_is_comma() {
    let l = layout("Delimited", None, vec![field("a", 1, 0, "int"), field("b", 2, 0, "bool")]);
    let d = decode(&l, &lines(&["5,true", "x;false"]));
    assert_eq!(d.records[0].get("a"), Some(&Value::Int(5)));
    assert_eq!(d.records[0].get("b"), Some(&Value::Bool(true)));
    assert_eq!(d.records[1].get("a"), Some(&Value::Int(0)));
    assert_eq!(d.records[1].len(), 1);
}

#[test]
fn fixed_width_single_line() {
    let d = decode(&code_qty(4), &lines(&["ABC  007"]));
    assert_eq!(d.records.len(), 1);
    assert_eq!(d.records[0].get("code"), Some(&text("ABC")));
    assert_eq!(d.records[0].get("qty"), Some(&Value::Int(7)));
    assert!(d.errors.is_empty());
}

#[test]
fn fixed_width_continuation_reads_next_line() {
    let d = decode(&code_qty(1), &lines(&["ABC  007", "00099"]));
    assert_eq!(d.records.len(), 1);
    assert_eq!(d.records[0].get("code"), Some(&text("ABC")));
    assert_eq!(d.records[0].get("qty"), Some(&Value::Int(99)));
    assert!(d.errors.is_empty());
}

#[test]
fn continuation_offsets_count_from_new_line_start() {
    let fields = vec![field("code", 1, 3, "string"), field("qty", 2, 2, "int")];
    let d = decode_fixed(&fields, &lines(&["ABC", "x12yy", "DEF", "z34"]));
    assert_eq!(d.records.len(), 2);
    assert_eq!(d.records[0].get("qty"), Some(&Value::Int(12)));
    assert_eq!(d.records[1].get("code"), Some(&text("DEF")));
    assert_eq!(d.records[1].get("qty"), Some(&Value::Int(34)));
}

#[test]
fn continuation_without_next_line_gives_partial_record() {
    let d = decode(&code_qty(1), &lines(&["ABC"]));
    assert_eq!(d.records.len(), 1);
    assert_eq!(names(&d.records[0]), vec!["code".to_string()]);
    assert!(d.errors.is_empty());
}

#[test]
fn fixed_width_short_line_reports_field() {
    let d = decode(&code_qty(4), &lines(&["ABC", "XYZ  012"]));
    assert_eq!(d.records.len(), 2);
    assert_eq!(d.records[0].get("code"), Some(&text("ABC")));
    assert_eq!(d.records[0].get("qty"), None);
    assert_eq!(d.errors.len(), 1);
    assert_eq!(d.errors[0].field, "qty".to_string());
    assert_eq!(d.errors[0].line, 0);
    assert_eq!(d.records[1].get("qty"), Some(&Value::Int(12)));
}

#[test]
fn fixed_slice_is_exact() {
    let f = field("f", 3, 4, "string");
    assert_eq!(extract_field(&f, "ab cd efgh"), Some("cd".to_string()));
    assert_eq!(extract_field(&f, "abXYZW"), Some("XYZW".to_string()));
    assert_eq!(extract_field(&f, "abXYZ"), None);
    assert_eq!(extract_field(&field("g", 0, 1, "string"), "abc"), None);
    assert_eq!(extract_field(&field("h", 2, 2, "string"), "aé€z"), Some("é€".to_string()));
}

#[test]
fn coercion_fallback() {
    let i = coerce("abc", FieldType::Int);
    assert_eq!(i.value, Value::Int(0));
    assert!(i.fallback);
    let f = coerce("abc", FieldType::Float);
    assert_eq!(f.value, Value::Float("0.0".to_string()));
    assert!(f.fallback);
    let b = coerce("abc", FieldType::Bool);
    assert_eq!(b.value, Value::Bool(false));
    assert!(b.fallback);
    let s = coerce("abc", FieldType::Text);
    assert_eq!(s.value, text("abc"));
    assert!(!s.fallback);
}

#[test]
fn coercion_success() {
    assert_eq!(coerce("-15", FieldType::Int).value, Value::Int(-15));
    assert!(!coerce("-15", FieldType::Int).fallback);
    assert_eq!(coerce("2.50", FieldType::Float).value, Value::Float("2.50".to_string()));
    assert!(!coerce("2.50", FieldType::Float).fallback);
    assert_eq!(coerce("true", FieldType::Bool).value, Value::Bool(true));
    assert_eq!(coerce("false", FieldType::Bool).value, Value::Bool(false));
    assert!(!coerce("false", FieldType::Bool).fallback);
}

#[test]
fn integer_parsing_edges() {
    assert_eq!(parse_int("0"), Some(0));
    assert_eq!(parse_int("+5"), Some(5));
    assert_eq!(parse_int("007"), Some(7));
    assert_eq!(parse_int("-9223372036854775808"), Some(i64::MIN));
    assert_eq!(parse_int("9223372036854775807"), Some(i64::MAX));
    assert_eq!(parse_int("9223372036854775808"), None);
    assert_eq!(parse_int("-9223372036854775809"), None);
    assert_eq!(parse_int(""), None);
    assert_eq!(parse_int("-"), None);
    assert_eq!(parse_int("1 2"), None);
    assert_eq!(parse_int("12a"), None);
    for s in ["17", "-3", "+0", "x", "", "99999999999999999999"] {
        assert_eq!(parse_int(s), s.parse::<i64>().ok());
    }
}

#[test]
fn bool_parsing() {
    assert_eq!(parse_bool("true"), Some(true));
    assert_eq!(parse_bool("false"), Some(false));
    assert_eq!(parse_bool("True"), None);
    assert_eq!(parse_bool(""), None);
}

#[test]
fn float_literals() {
    for s in ["1", "3.14", ".5", "5.", "-2", "+2.5e3", "1E-7", "0.0"] {
        assert!(is_float_literal(s), "{}", s);
        assert!(s.parse::<f64>().is_ok());
    }
    for s in ["", ".", "-", "e5", "1e", "1e+", "1.2.3", "inf", "NaN", "1 ", "0x10"] {
        assert!(!is_float_literal(s), "{}", s);
    }
}

#[test]
fn type_names() {
    assert_eq!(FieldType::from_name("int"), FieldType::Int);
    assert_eq!(FieldType::from_name("float"), FieldType::Float);
    assert_eq!(FieldType::from_name("bool"), FieldType::Bool);
    assert_eq!(FieldType::from_name("string"), FieldType::Text);
    assert_eq!(FieldType::from_name("date"), FieldType::Text);
}

#[test]
fn decoding_twice_gives_same_output() {
    let l = code_qty(1);
    let input = lines(&["ABC  007", "00099", "DEF", "12345", "GH"]);
    let a: Decoded = decode(&l, &input);
    let b: Decoded = decode(&l, &input);
    assert_eq!(a, b);
    let l = id_name_layout();
    let input = lines(&["1,a", "2", "x,\"y\""]);
    assert_eq!(decode(&l, &input), decode(&l, &input));
}

#[test]
fn empty_file_gives_no_records() {
    for l in [id_name_layout(), code_qty(4)] {
        let d = decode(&l, &Vec::new());
        assert!(d.records.is_empty());
        assert!(d.errors.is_empty());
    }
}

#[test]
fn layout_validation() {
    let ok = Layout::new(
        "n".to_string(),
        2,
        Some('|'),
        "Fixed",
        "both".to_string(),
        "s".to_string(),
        vec![field("a", 1, 2, "string")],
    )
    .unwrap();
    assert_eq!(ok.kind, FileKind::Fixed);
    assert_eq!(ok.delimiter_or_default(), '|');
    let unknown = Layout::new(String::new(), 1, None, "csv", String::new(), String::new(), vec![]);
    assert_eq!(unknown, Err(LayoutError::UnknownKind));
    let dup = Layout::new(
        String::new(),
        1,
        None,
        "delimited",
        String::new(),
        String::new(),
        vec![field("a", 1, 1, "int"), field("b", 2, 1, "int"), field("a", 3, 1, "int")],
    );
    assert_eq!(dup, Err(LayoutError::DuplicateField("a".to_string())));
    let zero = Layout::new(
        String::new(),
        1,
        None,
        "fixed",
        String::new(),
        String::new(),
        vec![field("a", 0, 1, "int")],
    );
    assert_eq!(zero, Err(LayoutError::ZeroPosition("a".to_string())));
    let zero_delimited = Layout::new(
        String::new(),
        1,
        None,
        "delimited",
        String::new(),
        String::new(),
        vec![field("a", 0, 1, "int")],
    );
    assert!(zero_delimited.is_ok());
}

#[test]
fn routes() {
    let mut l = id_name_layout();
    assert_eq!(l.route(), Some(Route { queue: true, store: false }));
    l.destination = "repository".to_string();
    assert_eq!(l.route(), Some(Route { queue: false, store: true }));
    l.destination = "both".to_string();
    assert_eq!(l.route(), Some(Route { queue: true, store: true }));
    l.destination = "nowhere".to_string();
    assert_eq!(l.route(), None);
}

#[test]
fn trimming_unicode_whitespace() {
    assert_eq!(trim_text("\t a b \u{a0}\n"), "a b".to_string());
    assert_eq!(trim_text("   "), String::new());
    assert_eq!(trim_text(""), String::new());
}
