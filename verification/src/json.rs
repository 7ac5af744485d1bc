//! JSON values, and what this library relies on of `serde_json`.

use crate::text;
use serde_json::Value;
use vstd::prelude::*;

verus! {

/// A JSON value as mathematics sees it. A number that is no integer stands as its decimal text.
#[verifier::ext_equal]
pub enum Json {
    Null,
    Bool(bool),
    Int(int),
    Real(Seq<char>),
    Str(Seq<char>),
    Array(Seq<Json>),
    Object(Map<Seq<char>, Json>),
}

/// A `serde_json` value, opaque to proofs but for `json_of`.
#[verifier::external_type_specification]
#[verifier::external_body]
pub struct ExValue(serde_json::Value);

/// An error of the `serde_json` parser, opaque to proofs.
#[verifier::external_type_specification]
#[verifier::external_body]
pub struct ExError(serde_json::Error);

/// What a `serde_json` value holds.
pub uninterp spec fn json_of(value: serde_json::Value) -> Json;

/// The compact text that `serde_json` writes for a value.
pub uninterp spec fn json_text(value: Json) -> Seq<char>;

/// The value that `serde_json` reads from a text, or nothing where it reports an error.
pub uninterp spec fn json_read(text: Seq<char>) -> Option<Json>;

/// What each value of a list holds.
pub open spec fn jsons_of(values: Seq<Value>) -> Seq<Json> {
    values.map_values(|v: Value| json_of(v))
}

/// The member of that name, or `Null` where there is none.
pub open spec fn member_of(value: Json, name: Seq<char>) -> Json {
    match value {
        Json::Object(members) => if members.contains_key(name) {
            members[name]
        } else {
            Json::Null
        },
        _ => Json::Null,
    }
}

/// `a` comes before `b` in lexicographic order.
pub open spec fn before(a: Seq<char>, b: Seq<char>) -> bool {
    exists|k: int|
        {
            &&& 0 <= k <= a.len()
            &&& k < b.len()
            &&& a.take(k) == b.take(k)
            &&& k < a.len() ==> a[k] < b[k]
        }
}

/// `names` lists each name of `members` once, in lexicographic order.
pub open spec fn in_order(names: Seq<Seq<char>>, members: Map<Seq<char>, Json>) -> bool {
    &&& forall|name: Seq<char>| #[trigger] names.contains(name) <==> members.contains_key(name)
    &&& forall|i: int, j: int| 0 <= i < j < names.len() ==> before(#[trigger] names[i], #[trigger] names[j])
}

/// `c` stands for itself inside a JSON string.
pub open spec fn unescaped(c: char) -> bool {
    ' ' <= c && c != '"' && c != '\\'
}

/// Every character of `s` stands for itself inside a JSON string.
pub open spec fn plain(s: Seq<char>) -> bool {
    forall|i: int| 0 <= i < s.len() ==> unescaped(#[trigger] s[i])
}

/// The hexadecimal digit for `n`, a number below sixteen.
pub open spec fn hex_digit(n: nat) -> char {
    if n < 10 {
        (n + 48) as char
    } else {
        (n + 87) as char
    }
}

/// What stands for `c` inside a JSON string.
pub open spec fn escape(c: char) -> Seq<char> {
    if unescaped(c) {
        seq![c]
    } else if c == '"' || c == '\\' {
        seq!['\\', c]
    } else if c == '\u{8}' {
        seq!['\\', 'b']
    } else if c == '\t' {
        seq!['\\', 't']
    } else if c == '\n' {
        seq!['\\', 'n']
    } else if c == '\u{c}' {
        seq!['\\', 'f']
    } else if c == '\r' {
        seq!['\\', 'r']
    } else {
        seq!['\\', 'u', '0', '0', hex_digit(c as nat / 16), hex_digit(c as nat % 16)]
    }
}

/// What stands for `s` between the quotes of a JSON string.
pub open spec fn escaped(s: Seq<char>) -> Seq<char>
    decreases s.len(),
{
    if s.len() == 0 {
        s
    } else {
        escaped(s.drop_last()) + escape(s.last())
    }
}

/// A text whose characters stand for themselves stands for itself.
pub proof fn law_plain_text_has_no_escapes(s: Seq<char>)
    requires
        plain(s),
    ensures
        escaped(s) == s,
    decreases s.len(),
{
    if s.len() > 0 {
        let shorter = s.drop_last();
        assert forall|i: int| 0 <= i < shorter.len() implies unescaped(#[trigger] shorter[i]) by {
            assert(shorter[i] == s[i]);
        }
        law_plain_text_has_no_escapes(shorter);
        assert(unescaped(s[s.len() - 1]));
        assert(shorter + seq![s.last()] =~= s);
    }
}

/// The text of a value is the obvious one where it is null, a number or a string.
pub open spec fn text_follows(value: Json) -> bool {
    match value {
        Json::Null => json_text(value) == "null"@,
        Json::Int(n) => json_text(value) == text::decimal(n),
        Json::Real(t) => json_text(value) == t,
        Json::Str(s) => json_text(value) == seq!['"'] + escaped(s) + seq!['"'],
        _ => true,
    }
}

/// `Value::from(&str)`: a JSON string with that text.
#[verifier::external_body]
pub(crate) fn string(text: &str) -> (r: Value)
    ensures
        json_of(r) == Json::Str(text@),
{
    Value::from(text)
}

/// `Value::from(i64)`: a JSON number with that integer.
#[verifier::external_body]
pub(crate) fn integer(n: i64) -> (r: Value)
    ensures
        json_of(r) == Json::Int(n as int),
{
    Value::from(n)
}

/// `Number::from_f64` of the floating point zero, as a value: the JSON number written `0.0`.
#[verifier::external_body]
pub(crate) fn real_zero() -> (r: Value)
    ensures
        json_of(r) == Json::Real("0.0"@),
{
    Value::from(serde_json::Number::from_f64(Default::default()))
}

/// `Value::from(Vec<Value>)`: a JSON array with those items.
#[verifier::external_body]
pub(crate) fn array(items: Vec<Value>) -> (r: Value)
    ensures
        json_of(r) == Json::Array(jsons_of(items@)),
{
    Value::from(items)
}

/// `Value::from(Map<String, Value>)` of the empty `Map::new()`: a JSON object without members.
#[verifier::external_body]
pub(crate) fn object() -> (r: Value)
    ensures
        json_of(r) == Json::Object(Map::<Seq<char>, Json>::empty()),
{
    Value::from(serde_json::Map::new())
}

/// `<Value as Clone>::clone`: a value that holds the same.
#[verifier::external_body]
pub(crate) fn copy(value: &Value) -> (r: Value)
    ensures
        json_of(r) == json_of(*value),
{
    value.clone()
}

/// `<Value as IndexMut<&str>>::index_mut` and a write to the place that it gives: the object has
/// the member under that name afterwards, and its other members as before. Indexing panics on a
/// value that is neither an object nor null.
#[verifier::external_body]
pub(crate) fn set_member(object: &mut Value, name: &str, member: Value)
    requires
        json_of(*old(object)) is Object,
    ensures
        json_of(*final(object)) == Json::Object(
            json_of(*old(object))->Object_0.insert(name@, json_of(member)),
        ),
{
    object[name] = member;
}

/// `<Value as Index<&str>>::index`: the member of that name, and null where the value is no
/// object or has no such member.
#[verifier::external_body]
pub(crate) fn member<'a>(value: &'a Value, name: &str) -> (r: &'a Value)
    ensures
        json_of(*r) == member_of(json_of(*value), name@),
{
    &value[name]
}

/// `Value::as_object`, and `Map::keys` of what it gives: the names of an object's members in
/// lexicographic order, which is the order of the tree that `serde_json` keeps them in, and
/// nothing where the value is no object.
#[verifier::external_body]
pub(crate) fn member_names(value: &Value) -> (r: Option<Vec<String>>)
    ensures
        match json_of(*value) {
            Json::Object(members) => match r {
                Some(names) => in_order(text::texts(names@), members),
                None => false,
            },
            _ => r is None,
        },
{
    match value.as_object() {
        Some(members) => Some(members.keys().cloned().collect()),
        None => None,
    }
}

/// `Value::as_bool`: the truth value of a JSON boolean, and nothing for any other value.
#[verifier::external_body]
pub(crate) fn as_bool(value: &Value) -> (r: Option<bool>)
    ensures
        r == (match json_of(*value) {
            Json::Bool(b) => Some(b),
            _ => None::<bool>,
        }),
{
    value.as_bool()
}

/// `Value::as_str`: the text of a JSON string, and nothing for any other value.
#[verifier::external_body]
pub(crate) fn as_str(value: &Value) -> (r: Option<&str>)
    ensures
        match json_of(*value) {
            Json::Str(text) => match r {
                Some(s) => s@ == text,
                None => false,
            },
            _ => r is None,
        },
{
    value.as_str()
}

/// `Value::as_array`: the items of a JSON array, and nothing for any other value.
#[verifier::external_body]
pub(crate) fn as_array(value: &Value) -> (r: Option<&Vec<Value>>)
    ensures
        match json_of(*value) {
            Json::Array(items) => match r {
                Some(v) => jsons_of(v@) == items,
                None => false,
            },
            _ => r is None,
        },
{
    value.as_array()
}

/// `<Value as PartialEq<i64>>::eq`: whether the value is the JSON number of that integer.
#[verifier::external_body]
pub(crate) fn equals_integer(value: &Value, n: i64) -> (r: bool)
    ensures
        r == (json_of(*value) == Json::Int(n as int)),
{
    *value == n
}

/// `ToString::to_string` through `<Value as Display>::fmt`: the compact JSON text of the value.
/// A line break inside a string is written as an escape, so the text is a single line. Null is
/// written `null`, an integer in decimal notation, and a string between double quotes, with an
/// escape for the quote, the backslash and each control character below the space and with every
/// other character as it is. How arrays and objects are written is left to the name.
#[verifier::external_body]
pub(crate) fn text(value: &Value) -> (r: String)
    ensures
        r@ == json_text(json_of(*value)),
        !r@.contains('\n'),
        json_of(*value) is Null ==> r@ == "null"@,
        json_of(*value) matches Json::Int(n) ==> r@ == text::decimal(n),
        json_of(*value) matches Json::Real(t) ==> r@ == t,
        json_of(*value) matches Json::Str(s) ==> r@ == seq!['"'] + escaped(s) + seq!['"'],
{
    value.to_string()
}

/// `serde_json::from_str::<Value>`: the value that a JSON text denotes, or the parser's error.
#[verifier::external_body]
pub(crate) fn parse(text: &str) -> (r: Result<Value, serde_json::Error>)
    ensures
        match r {
            Ok(value) => json_read(text@) == Some(json_of(value)),
            Err(_) => json_read(text@) is None,
        },
{
    serde_json::from_str(text)
}

} // verus!
