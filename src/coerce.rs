use vstd::prelude::*;
use crate::text::same_text;

verus! {

/// The semantic type a field declares.
#[derive(Clone, Copy, Debug, PartialEq, Eq, Structural)]
pub enum FieldType {
    Text,
    Int,
    Float,
    Bool,
}

/// What a coerced value means.
pub enum Scalar {
    Text(Seq<char>),
    Int(int),
    /// A finite decimal literal, kept as its text.
    Float(Seq<char>),
    Bool(bool),
}

/// A typed scalar value of a record.
#[derive(Clone, Debug, PartialEq)]
pub enum Value {
    Text(String),
    Int(i64),
    /// The decimal literal of a double-precision number; always a `float_literal`.
    Float(String),
    Bool(bool),
}

impl View for Value {
    type V = Scalar;

    open spec fn view(&self) -> Scalar {
        match self {
            Value::Text(s) => Scalar::Text(s@),
            Value::Int(i) => Scalar::Int(*i as int),
            Value::Float(s) => Scalar::Float(s@),
            Value::Bool(b) => Scalar::Bool(*b),
        }
    }
}

/// A coerced value, with whether it is the fallback of a failed parse.
#[derive(Clone, Debug, PartialEq)]
pub struct Coerced {
    pub value: Value,
    pub fallback: bool,
}

pub open spec fn text_int() -> Seq<char> {
    seq!['i', 'n', 't']
}

pub open spec fn text_float() -> Seq<char> {
    seq!['f', 'l', 'o', 'a', 't']
}

pub open spec fn text_bool() -> Seq<char> {
    seq!['b', 'o', 'o', 'l']
}

pub open spec fn text_true() -> Seq<char> {
    seq!['t', 'r', 'u', 'e']
}

pub open spec fn text_false() -> Seq<char> {
    seq!['f', 'a', 'l', 's', 'e']
}

/// The value a failed float parse falls back to.
pub open spec fn text_zero_float() -> Seq<char> {
    seq!['0', '.', '0']
}

/// The type a declared type name stands for; names other than int, float and bool are text.
pub open spec fn type_named(s: Seq<char>) -> FieldType {
    if s == text_int() {
        FieldType::Int
    } else if s == text_float() {
        FieldType::Float
    } else if s == text_bool() {
        FieldType::Bool
    } else {
        FieldType::Text
    }
}

pub open spec fn is_digit(c: char) -> bool {
    '0' <= c && c <= '9'
}

pub open spec fn digit_of(c: char) -> int {
    c as int - '0' as int
}

/// The number that a run of decimal digits spells.
pub open spec fn digits_value(s: Seq<char>) -> int
    decreases s.len(),
{
    if s.len() == 0 {
        0
    } else {
        digits_value(s.drop_last()) * 10 + digit_of(s.last())
    }
}

pub open spec fn all_digits(s: Seq<char>) -> bool {
    s.len() >= 1 && forall|k: int| 0 <= k < s.len() ==> is_digit(#[trigger] s[k])
}

/// Whether `s` starts with a sign character.
pub open spec fn has_sign(s: Seq<char>) -> bool {
    s.len() > 0 && (s[0] == '-' || s[0] == '+')
}

/// The 64-bit signed integer that `s` spells: an optional sign and at least one digit.
pub open spec fn int_of(s: Seq<char>) -> Option<int> {
    let body = if has_sign(s) { s.drop_first() } else { s };
    let v = if has_sign(s) && s[0] == '-' { -digits_value(body) } else { digits_value(body) };
    if all_digits(body) && i64::MIN <= v <= i64::MAX {
        Some(v)
    } else {
        None
    }
}

/// The boolean that `s` spells: exactly `true` or `false`.
pub open spec fn bool_of(s: Seq<char>) -> Option<bool> {
    if s == text_true() {
        Some(true)
    } else if s == text_false() {
        Some(false)
    } else {
        None
    }
}

/// How many digits follow one another in `s` from offset `i`.
pub open spec fn digit_run(s: Seq<char>, i: int) -> int
    decreases s.len() - i,
{
    if 0 <= i < s.len() && is_digit(s[i]) {
        1 + digit_run(s, i + 1)
    } else {
        0
    }
}

/// Whether `s` is a finite decimal literal: an optional sign, digits with an optional
/// point (at least one digit in all), then optionally `e` or `E`, an optional sign and
/// at least one digit.
pub open spec fn float_literal(s: Seq<char>) -> bool {
    let i0: int = if has_sign(s) { 1 } else { 0 };
    let p = i0 + digit_run(s, i0);
    let frac = if p < s.len() && s[p] == '.' { digit_run(s, p + 1) } else { 0 };
    let q = if p < s.len() && s[p] == '.' { p + 1 + frac } else { p };
    let mantissa = (p - i0) + frac >= 1;
    if q == s.len() {
        mantissa
    } else {
        let j = if q + 1 < s.len() && (s[q + 1] == '-' || s[q + 1] == '+') { q + 2 } else { q + 1 };
        mantissa && (s[q] == 'e' || s[q] == 'E') && digit_run(s, j) >= 1 && j + digit_run(s, j)
            == s.len()
    }
}

/// The value a raw token coerces to under a declared type, and whether the fallback applied.
pub open spec fn coerced(raw: Seq<char>, t: FieldType) -> (Scalar, bool) {
    match t {
        FieldType::Text => (Scalar::Text(raw), false),
        FieldType::Int => match int_of(raw) {
            Some(v) => (Scalar::Int(v), false),
            None => (Scalar::Int(0), true),
        },
        FieldType::Float => if float_literal(raw) {
            (Scalar::Float(raw), false)
        } else {
            (Scalar::Float(text_zero_float()), true)
        },
        FieldType::Bool => match bool_of(raw) {
            Some(b) => (Scalar::Bool(b), false),
            None => (Scalar::Bool(false), true),
        },
    }
}

impl FieldType {
    /// The type a declared type name stands for.
    pub fn from_name(s: &str) -> (r: FieldType)
        ensures
            r == type_named(s@),
    {
        proof {
            reveal_strlit("int");
            reveal_strlit("float");
            reveal_strlit("bool");
            assert("int"@ =~= text_int());
            assert("float"@ =~= text_float());
            assert("bool"@ =~= text_bool());
        }
        if same_text(s, "int") {
            FieldType::Int
        } else if same_text(s, "float") {
            FieldType::Float
        } else if same_text(s, "bool") {
            FieldType::Bool
        } else {
            FieldType::Text
        }
    }
}

proof fn lemma_digits_nonneg(s: Seq<char>)
    requires
        forall|k: int| 0 <= k < s.len() ==> is_digit(#[trigger] s[k]),
    ensures
        digits_value(s) >= 0,
    decreases s.len(),
{
    if s.len() > 0 {
        lemma_digits_nonneg(s.drop_last());
    }
}

/// A prefix of a run of digits spells no more than the whole run.
proof fn lemma_digits_prefix(s: Seq<char>, k: int)
    requires
        0 <= k <= s.len(),
        forall|j: int| 0 <= j < s.len() ==> is_digit(#[trigger] s[j]),
    ensures
        digits_value(s.subrange(0, k)) <= digits_value(s),
    decreases s.len(),
{
    if k < s.len() {
        let t = s.drop_last();
        lemma_digits_prefix(t, k);
        lemma_digits_nonneg(t);
        assert(t.subrange(0, k) =~= s.subrange(0, k));
    } else {
        assert(s.subrange(0, k) =~= s);
    }
}

proof fn lemma_step_bound(acc: int, d: int, bound: int)
    requires
        0 <= acc,
        0 <= d <= 9,
        d <= bound,
    ensures
        acc > (bound - d) / 10 <==> acc * 10 + d > bound,
{
    assert(acc > (bound - d) / 10 ==> acc * 10 + d > bound) by (nonlinear_arith)
        requires
            0 <= d <= bound,
    ;
    assert(acc <= (bound - d) / 10 ==> acc * 10 + d <= bound) by (nonlinear_arith)
        requires
            0 <= d <= bound,
    ;
}

/// The integer a token spells, as `str::parse::<i64>` reads it.
pub fn parse_int(s: &str) -> (r: Option<i64>)
    ensures
        r is Some <==> int_of(s@) is Some,
        r is Some ==> r->0 as int == int_of(s@)->0,
{
    let n = s.unicode_len();
    let neg = n > 0 && s.get_char(0) == '-';
    let st: usize = if n > 0 && (s.get_char(0) == '-' || s.get_char(0) == '+') { 1 } else { 0 };
    let ghost body = if has_sign(s@) { s@.drop_first() } else { s@ };
    assert(body =~= s@.subrange(st as int, n as int));
    if st == n {
        return None;
    }
    let bound: u64 = if neg { 9223372036854775808 } else { 9223372036854775807 };
    let mut acc: u64 = 0;
    let mut i: usize = st;
    while i < n
        invariant
            st <= i <= n,
            n == s@.len(),
            st < n,
            body == s@.subrange(st as int, n as int),
            body == (if has_sign(s@) { s@.drop_first() } else { s@ }),
            neg == (has_sign(s@) && s@[0] == '-'),
            bound == (if neg { 9223372036854775808u64 } else { 9223372036854775807u64 }),
            acc as int == digits_value(s@.subrange(st as int, i as int)),
            acc <= bound,
            forall|k: int| st <= k < i ==> is_digit(#[trigger] s@[k]),
        decreases n - i,
    {
        let c = s.get_char(i);
        if !('0' <= c && c <= '9') {
            assert(body[i - st] == c);
            assert(!is_digit(body[i - st]));
            assert(!all_digits(body));
            return None;
        }
        let d: u64 = (c as u32 - '0' as u32) as u64;
        assert(d <= 9);
        assert(d as int == digit_of(c));
        let ghost pre = s@.subrange(st as int, i as int);
        let ghost next = s@.subrange(st as int, i + 1);
        assert(next.drop_last() =~= pre);
        proof {
            lemma_digits_nonneg(pre);
            lemma_step_bound(acc as int, d as int, bound as int);
        }
        if acc > (bound - d) / 10 {
            proof {
                if all_digits(body) {
                    lemma_digits_prefix(body, i + 1 - st);
                    assert(body.subrange(0, i + 1 - st) =~= next);
                    assert(next.last() == c);
                    assert(digits_value(next) == acc * 10 + d);
                }
            }
            return None;
        }
        acc = acc * 10 + d;
        i = i + 1;
    }
    assert(s@.subrange(st as int, n as int) == body);
    if neg {
        if acc == 9223372036854775808u64 {
            Some(i64::MIN)
        } else {
            Some(-(acc as i64))
        }
    } else {
        Some(acc as i64)
    }
}

/// The boolean a token spells, as `str::parse::<bool>` reads it.
pub fn parse_bool(s: &str) -> (r: Option<bool>)
    ensures
        r == bool_of(s@),
{
    proof {
        reveal_strlit("true");
        reveal_strlit("false");
        assert("true"@ =~= text_true());
        assert("false"@ =~= text_false());
    }
    if same_text(s, "true") {
        Some(true)
    } else if same_text(s, "false") {
        Some(false)
    } else {
        None
    }
}

/// The end of the run of digits in `s` that starts at `i`.
fn run_end(s: &str, i: usize) -> (r: usize)
    requires
        i <= s@.len(),
    ensures
        r == i + digit_run(s@, i as int),
        r <= s@.len(),
{
    let n = s.unicode_len();
    let mut j = i;
    while j < n && is_digit_char(s.get_char(j))
        invariant
            i <= j <= n,
            n == s@.len(),
            digit_run(s@, i as int) == (j - i) + digit_run(s@, j as int),
        decreases n - j,
    {
        j = j + 1;
    }
    j
}

fn is_digit_char(c: char) -> (r: bool)
    ensures
        r == is_digit(c),
{
    '0' <= c && c <= '9'
}

proof fn lemma_run_bounded(s: Seq<char>, i: int)
    requires
        0 <= i,
    ensures
        0 <= digit_run(s, i),
        i <= s.len() ==> i + digit_run(s, i) <= s.len(),
    decreases s.len() - i,
{
    if 0 <= i < s.len() && is_digit(s[i]) {
        lemma_run_bounded(s, i + 1);
    }
}

/// Whether a token is a finite decimal literal that `str::parse::<f64>` accepts.
pub fn is_float_literal(s: &str) -> (r: bool)
    ensures
        r == float_literal(s@),
{
    let n = s.unicode_len();
    let i0: usize = if n > 0 && (s.get_char(0) == '-' || s.get_char(0) == '+') { 1 } else { 0 };
    let p = run_end(s, i0);
    let mut q = p;
    if p < n && s.get_char(p) == '.' {
        q = run_end(s, p + 1);
    }
    proof {
        lemma_run_bounded(s@, p + 1);
    }
    let mantissa = (p - i0) + (if q > p { q - p - 1 } else { 0 }) >= 1;
    if q == n {
        mantissa
    } else {
        let e = s.get_char(q);
        let j: usize = if q + 1 < n && (s.get_char(q + 1) == '-' || s.get_char(q + 1) == '+') {
            q + 2
        } else {
            q + 1
        };
        let k = run_end(s, j);
        mantissa && (e == 'e' || e == 'E') && k > j && k == n
    }
}

/// Coerces a raw token to a declared type, falling back to the type's zero on a failed parse.
pub fn coerce(raw: &str, t: FieldType) -> (r: Coerced)
    ensures
        (r.value@, r.fallback) == coerced(raw@, t),
{
    match t {
        FieldType::Text => Coerced { value: Value::Text(raw.to_string()), fallback: false },
        FieldType::Int => match parse_int(raw) {
            Some(v) => Coerced { value: Value::Int(v), fallback: false },
            None => Coerced { value: Value::Int(0), fallback: true },
        },
        FieldType::Float => {
            if is_float_literal(raw) {
                Coerced { value: Value::Float(raw.to_string()), fallback: false }
            } else {
                proof {
                    reveal_strlit("0.0");
                    assert("0.0"@ =~= text_zero_float());
                }
                Coerced { value: Value::Float("0.0".to_string()), fallback: true }
            }
        },
        FieldType::Bool => match parse_bool(raw) {
            Some(b) => Coerced { value: Value::Bool(b), fallback: false },
            None => Coerced { value: Value::Bool(false), fallback: true },
        },
    }
}

} // verus!
