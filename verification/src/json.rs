//! JSON values as the library holds them, and reading and writing JSON text with
//! `serde_json`.
use vstd::prelude::*;
use crate::mcp::text_is;
use crate::store::no_repeats;

verus! {

/// `serde_json`'s JSON value, carried only between the parse and the print below.
#[verifier::external_type_specification]
#[verifier::external_body]
pub struct ExJsonValue(serde_json::Value);

/// A JSON value.
pub enum Json {
    /// `null`.
    Null,
    /// `true` or `false`.
    Bool(bool),
    /// A number, as `serde_json` writes it.
    Number(String),
    /// A string.
    Text(String),
    /// An array.
    Array(Vec<Json>),
    /// An object: its entries, each a key and a value.
    Object(Vec<(String, Json)>),
}

/// What `serde_json::from_str` reads from the text `raw`: `None` where `raw` is not
/// JSON; else its value, each object's entries in the order of their keys.
pub uninterp spec fn json_of_text(raw: Seq<char>) -> Option<Json>;

/// The text that `serde_json::to_string_pretty` writes for `j`.
pub uninterp spec fn pretty_text(j: Json) -> Seq<char>;

/// The keys of object entries.
pub open spec fn keys_of(es: Seq<(String, Json)>) -> Seq<Seq<char>> {
    es.map_values(|e: (String, Json)| e.0@)
}

/// The string a value holds, where it is a string.
pub open spec fn text_of(j: Json) -> Option<Seq<char>> {
    match j {
        Json::Text(s) => Some(s@),
        _ => None,
    }
}

/// Whether `j` is `null` or a string.
pub open spec fn is_leaf(j: Json) -> bool {
    j is Null || j is Text
}

/// Whether `j` is an object of distinct keys whose values are `null` or strings.
pub open spec fn is_flat_object(j: Json) -> bool {
    match j {
        Json::Object(es) => no_repeats(keys_of(es@)) && forall|i: int|
            0 <= i < es@.len() ==> is_leaf(#[trigger] es@[i].1),
        _ => false,
    }
}

/// Whether `j` is an object of distinct keys whose values are `null`, strings, or
/// objects of distinct keys whose values are `null` or strings.
pub open spec fn is_record(j: Json) -> bool {
    match j {
        Json::Object(es) => no_repeats(keys_of(es@)) && forall|i: int|
            0 <= i < es@.len() ==> is_leaf(#[trigger] es@[i].1) || is_flat_object(es@[i].1),
        _ => false,
    }
}

/// Whether the entries `a` and `b` are the same, in any order, their values compared
/// as strings.
pub open spec fn same_leaf_entries(a: Seq<(String, Json)>, b: Seq<(String, Json)>) -> bool {
    &&& a.len() == b.len()
    &&& forall|i: int|
        0 <= i < a.len() ==> exists|k: int|
            0 <= k < b.len() && b[k].0@ == (#[trigger] a[i]).0@ && text_of(b[k].1) == text_of(a[i].1)
    &&& forall|k: int|
        0 <= k < b.len() ==> exists|i: int|
            0 <= i < a.len() && a[i].0@ == (#[trigger] b[k]).0@ && text_of(a[i].1) == text_of(b[k].1)
}

/// Whether the values `a` and `b` are the same: both `null`, the same string, or
/// objects with the same entries in any order.
pub open spec fn same_value(a: Json, b: Json) -> bool {
    match (a, b) {
        (Json::Null, Json::Null) => true,
        (Json::Text(x), Json::Text(y)) => x@ == y@,
        (Json::Object(x), Json::Object(y)) => same_leaf_entries(x@, y@),
        _ => false,
    }
}

/// Whether the records `a` and `b` hold the same entries, in any order.
pub open spec fn same_record(a: Json, b: Json) -> bool {
    match (a, b) {
        (Json::Object(x), Json::Object(y)) => {
            &&& x@.len() == y@.len()
            &&& forall|i: int|
                0 <= i < x@.len() ==> exists|k: int|
                    0 <= k < y@.len() && y@[k].0@ == (#[trigger] x@[i]).0@ && same_value(x@[i].1, y@[k].1)
            &&& forall|k: int|
                0 <= k < y@.len() ==> exists|i: int|
                    0 <= i < x@.len() && x@[i].0@ == (#[trigger] y@[k]).0@ && same_value(x@[i].1, y@[k].1)
        },
        _ => false,
    }
}

/// Turns a `serde_json::Value` into a `Json`, variant for variant.
#[verifier::external_body]
fn json_of_value(v: serde_json::Value) -> Json {
    match v {
        serde_json::Value::Null => Json::Null,
        serde_json::Value::Bool(b) => Json::Bool(b),
        serde_json::Value::Number(n) => Json::Number(n.to_string()),
        serde_json::Value::String(s) => Json::Text(s),
        serde_json::Value::Array(a) => Json::Array(a.into_iter().map(json_of_value).collect()),
        serde_json::Value::Object(m) => Json::Object(m.into_iter().map(|(k, x)| (k, json_of_value(x))).collect()),
    }
}

/// Turns a `Json` into a `serde_json::Value`, variant for variant; a number text that
/// `serde_json::Number::from_str` refuses becomes `null`.
#[verifier::external_body]
fn value_of_json(j: &Json) -> serde_json::Value {
    match j {
        Json::Null => serde_json::Value::Null,
        Json::Bool(b) => serde_json::Value::Bool(*b),
        Json::Number(n) => n.parse().map(serde_json::Value::Number).unwrap_or(serde_json::Value::Null),
        Json::Text(s) => serde_json::Value::String(s.clone()),
        Json::Array(a) => serde_json::Value::Array(a.iter().map(value_of_json).collect()),
        Json::Object(es) => serde_json::Value::Object(es.iter().map(|(k, x)| (k.clone(), value_of_json(x))).collect()),
    }
}

/// Reads the JSON text `raw` with `serde_json::from_str`. Claimed: the result is the
/// named parse `json_of_text` of `raw`.
#[verifier::external_body]
pub(crate) fn parse_json(raw: &str) -> (r: Option<Json>)
    ensures
        r == json_of_text(raw@),
{
    serde_json::from_str::<serde_json::Value>(raw).ok().map(json_of_value)
}

/// What `serde_json::from_str` reads from `t`, or `null` where `t` is not JSON.
pub open spec fn read_back(t: Seq<char>) -> Json {
    match json_of_text(t) {
        Some(r) => r,
        None => Json::Null,
    }
}

/// Writes `j` as pretty-printed JSON text with `serde_json::to_string_pretty`.
/// Claimed: the result is the named text `pretty_text` of `j`; and, for a record
/// (whose keys are distinct at each level), `serde_json::from_str` reads the text back
/// as a record with the same entries (`serde_json` keeps an object's entries in a
/// `BTreeMap`, so they come back in the order of their keys).
#[verifier::external_body]
pub(crate) fn json_text(j: &Json) -> (t: String)
    ensures
        t@ == pretty_text(*j),
        is_record(*j) ==> json_of_text(t@) is Some,
        is_record(*j) ==> is_record(read_back(t@)) && same_record(read_back(t@), *j),
{
    serde_json::to_string_pretty(&value_of_json(j)).unwrap_or_default()
}

/// The value of the first entry of `es` with the key `key`.
pub open spec fn field(es: Seq<(String, Json)>, key: Seq<char>) -> Option<Json>
    decreases es.len(),
{
    if es.len() == 0 {
        None
    } else if es[0].0@ == key {
        Some(es[0].1)
    } else {
        field(es.drop_first(), key)
    }
}

/// The value of the first entry of `es` with the key `key`, if any.
pub fn find_field<'a>(es: &'a Vec<(String, Json)>, key: &str) -> (r: Option<&'a Json>)
    ensures
        match r {
            Some(v) => field(es@, key@) == Some(*v),
            None => field(es@, key@) is None,
        },
{
    let mut i: usize = 0;
    proof {
        assert(es@.skip(0) =~= es@);
    }
    while i < es.len()
        invariant
            i <= es.len(),
            field(es@, key@) == field(es@.skip(i as int), key@),
        decreases es.len() - i,
    {
        proof {
            assert(es@.skip(i as int).drop_first() =~= es@.skip(i + 1));
            assert(es@.skip(i as int)[0] == es@[i as int]);
        }
        if text_is(&es[i].0, key) {
            return Some(&es[i].1);
        }
        i = i + 1;
    }
    None
}

/// In entries of distinct keys, the value under a key is that of the one entry with it.
pub proof fn lemma_field_of_distinct(es: Seq<(String, Json)>, k: int)
    requires
        no_repeats(keys_of(es)),
        0 <= k < es.len(),
    ensures
        field(es, es[k].0@) == Some(es[k].1),
    decreases es.len(),
{
    if k > 0 {
        let rest = es.drop_first();
        assert(keys_of(es)[0] != keys_of(es)[k]);
        assert(keys_of(rest) =~= keys_of(es).drop_first());
        assert(rest[k - 1] == es[k]);
        lemma_field_of_distinct(rest, k - 1);
    }
}

/// Where no entry has the key `key`, there is no value under it.
pub proof fn lemma_field_absent(es: Seq<(String, Json)>, key: Seq<char>)
    requires
        forall|i: int| 0 <= i < es.len() ==> (#[trigger] es[i]).0@ != key,
    ensures
        field(es, key) is None,
    decreases es.len(),
{
    if es.len() > 0 {
        let rest = es.drop_first();
        assert forall|i: int| 0 <= i < rest.len() implies (#[trigger] rest[i]).0@ != key by {
            assert(rest[i] == es[i + 1]);
        }
        lemma_field_absent(rest, key);
    }
}

/// The value under `key` of `j`, where `j` is an object that has one.
pub open spec fn member(j: Json, key: Seq<char>) -> Option<Json> {
    match j {
        Json::Object(es) => field(es@, key),
        _ => None,
    }
}

/// The string under `key` of `j`, where there is one.
pub open spec fn text_member(j: Json, key: Seq<char>) -> Option<Seq<char>> {
    match member(j, key) {
        Some(v) => text_of(v),
        None => None,
    }
}

/// The value under `key` of `j`, or `null` where there is none.
pub open spec fn member_or_null(j: Json, key: Seq<char>) -> Json {
    match member(j, key) {
        Some(v) => v,
        None => Json::Null,
    }
}

/// Where the first entry of `es` with the key `key` stands, if there is one.
pub fn find_index(es: &Vec<(String, Json)>, key: &str) -> (r: Option<usize>)
    ensures
        match r {
            Some(i) => i < es@.len() && field(es@, key@) == Some(es@[i as int].1),
            None => field(es@, key@) is None,
        },
{
    let mut i: usize = 0;
    proof {
        assert(es@.skip(0) =~= es@);
    }
    while i < es.len()
        invariant
            i <= es.len(),
            field(es@, key@) == field(es@.skip(i as int), key@),
        decreases es.len() - i,
    {
        proof {
            assert(es@.skip(i as int).drop_first() =~= es@.skip(i + 1));
            assert(es@.skip(i as int)[0] == es@[i as int]);
        }
        if text_is(&es[i].0, key) {
            return Some(i);
        }
        i = i + 1;
    }
    None
}

/// The value under `key` of `j`, if `j` is an object that has one.
pub fn member_ref<'a>(j: &'a Json, key: &str) -> (r: Option<&'a Json>)
    ensures
        match r {
            Some(v) => member(*j, key@) == Some(*v),
            None => member(*j, key@) is None,
        },
{
    match j {
        Json::Object(es) => find_field(es, key),
        _ => None,
    }
}

/// The string under `key` of `j`, if there is one.
pub fn text_at(j: &Json, key: &str) -> (r: Option<String>)
    ensures
        crate::mcp::opt_view(r) == text_member(*j, key@),
{
    match member_ref(j, key) {
        Some(Json::Text(s)) => Some(s.clone()),
        _ => None,
    }
}

/// The value under `key` of `j`, taken out of it, or `null` where there is none.
pub fn take_member(j: Json, key: &str) -> (r: Json)
    ensures
        r == member_or_null(j, key@),
{
    let ghost g = j;
    match j {
        Json::Object(mut es) => {
            let ghost ev = es@;
            match find_index(&es, key) {
                Some(i) => {
                    let e = es.remove(i);
                    proof {
                        assert(e == ev[i as int]);
                    }
                    e.1
                },
                None => Json::Null,
            }
        },
        _ => Json::Null,
    }
}

/// A JSON string holding `s`.
pub fn text_value(s: &str) -> (j: Json)
    ensures
        text_of(j) == Some(s@),
{
    Json::Text(String::from_str(s))
}

/// An object entry with the key `key` and the value `v`.
pub fn entry(key: &str, v: Json) -> (e: (String, Json))
    ensures
        e.0@ == key@,
        e.1 == v,
{
    (String::from_str(key), v)
}

/// The text that `serde_json::to_string` writes for `j`.
pub uninterp spec fn compact_text(j: Json) -> Seq<char>;

/// Writes `j` as compact JSON text with `serde_json::to_string`. Claimed: the result is
/// the named text `compact_text` of `j`.
#[verifier::external_body]
pub(crate) fn json_compact(j: &Json) -> (t: String)
    ensures
        t@ == compact_text(*j),
{
    serde_json::to_string(&value_of_json(j)).unwrap_or_default()
}

/// The entries of `j`, where it is an object.
pub open spec fn entries(j: Json) -> Seq<(String, Json)> {
    match j {
        Json::Object(es) => es@,
        _ => Seq::empty(),
    }
}

/// The items of `j`, where it is an array.
pub open spec fn items(j: Json) -> Seq<Json> {
    match j {
        Json::Array(xs) => xs@,
        _ => Seq::empty(),
    }
}

/// An object without entries.
pub fn obj0() -> (j: Json)
    ensures
        j is Object,
        entries(j) == Seq::<(String, Json)>::empty(),
{
    let es: Vec<(String, Json)> = Vec::new();
    proof {
        assert(es@ =~= Seq::<(String, Json)>::empty());
    }
    Json::Object(es)
}

/// An object of the one entry `a`.
pub fn obj1(a: (String, Json)) -> (j: Json)
    ensures
        j is Object,
        entries(j) == seq![a],
{
    let ghost ga = a;
    let mut es: Vec<(String, Json)> = Vec::new();
    es.push(a);
    proof {
        assert(es@ =~= seq![ga]);
    }
    Json::Object(es)
}

/// An object of the entries `a` and `b`, in that order.
pub fn obj2(a: (String, Json), b: (String, Json)) -> (j: Json)
    ensures
        j is Object,
        entries(j) == seq![a, b],
{
    let ghost ga = a;
    let ghost gb = b;
    let mut es: Vec<(String, Json)> = Vec::new();
    es.push(a);
    es.push(b);
    proof {
        assert(es@ =~= seq![ga, gb]);
    }
    Json::Object(es)
}

/// An object of the entries `a`, `b` and `c`, in that order.
pub fn obj3(a: (String, Json), b: (String, Json), c: (String, Json)) -> (j: Json)
    ensures
        j is Object,
        entries(j) == seq![a, b, c],
{
    let ghost ga = a;
    let ghost gb = b;
    let ghost gc = c;
    let mut es: Vec<(String, Json)> = Vec::new();
    es.push(a);
    es.push(b);
    es.push(c);
    proof {
        assert(es@ =~= seq![ga, gb, gc]);
    }
    Json::Object(es)
}

/// An array of the one item `x`.
pub fn arr1(x: Json) -> (j: Json)
    ensures
        j is Array,
        items(j) == seq![x],
{
    let ghost gx = x;
    let mut xs: Vec<Json> = Vec::new();
    xs.push(x);
    proof {
        assert(xs@ =~= seq![gx]);
    }
    Json::Array(xs)
}

} // verus!
