//! A JSON document model that the rest of the library reads.
//!
//! The text is parsed by `serde_json`; its `Value` is turned one for one into
//! [`Json`], whose spec view [`JsonValue`] the contracts speak of.
use vstd::prelude::*;
use crate::text::{str_equal, text_lt};

verus! {

#[verifier::external_type_specification]
#[verifier::external_body]
pub struct ExJsonError(serde_json::Error);

#[verifier::external_type_specification]
#[verifier::external_body]
pub struct ExJsonDocumentValue(serde_json::Value);

/// A JSON number, as `serde_json` classifies it: a non-negative integer, a
/// negative integer, or a floating-point number, kept as the text that
/// `serde_json` writes for it.
#[derive(Clone, Debug, PartialEq, Eq)]
pub enum JsonNumber {
    UInt(u64),
    NegInt(i64),
    Float(String),
}

/// The model of a [`JsonNumber`].
pub enum NumberView {
    UInt(u64),
    NegInt(i64),
    Float(Seq<char>),
}

pub open spec fn number_view(n: JsonNumber) -> NumberView {
    match n {
        JsonNumber::UInt(u) => NumberView::UInt(u),
        JsonNumber::NegInt(i) => NumberView::NegInt(i),
        JsonNumber::Float(t) => NumberView::Float(t@),
    }
}

fn clone_number(n: &JsonNumber) -> (r: JsonNumber)
    ensures
        number_view(r) == number_view(*n),
{
    match n {
        JsonNumber::UInt(u) => JsonNumber::UInt(*u),
        JsonNumber::NegInt(i) => JsonNumber::NegInt(*i),
        JsonNumber::Float(t) => JsonNumber::Float(t.clone()),
    }
}

/// A parsed JSON value.
#[derive(Debug, PartialEq, Eq)]
pub enum Json {
    Null,
    Bool(bool),
    Number(JsonNumber),
    Str(String),
    Array(Vec<Json>),
    Object(Vec<(String, Json)>),
}

/// The mathematical model of a [`Json`] value: strings as character
/// sequences, arrays as sequences, objects as sequences of key/value pairs
/// in the order the parser hands them out.
pub enum JsonValue {
    Null,
    Bool(bool),
    Number(NumberView),
    Str(Seq<char>),
    Array(Seq<JsonValue>),
    Object(Seq<(Seq<char>, JsonValue)>),
}

pub open spec fn json_view(j: Json) -> JsonValue
    decreases j,
{
    match j {
        Json::Null => JsonValue::Null,
        Json::Bool(b) => JsonValue::Bool(b),
        Json::Number(n) => JsonValue::Number(number_view(n)),
        Json::Str(s) => JsonValue::Str(s@),
        Json::Array(items) => JsonValue::Array(json_items_view(items@)),
        Json::Object(fields) => JsonValue::Object(json_fields_view(fields@)),
    }
}

pub open spec fn json_items_view(items: Seq<Json>) -> Seq<JsonValue>
    decreases items,
{
    if items.len() == 0 {
        Seq::empty()
    } else {
        json_items_view(items.drop_last()).push(json_view(items.last()))
    }
}

pub open spec fn json_fields_view(fields: Seq<(String, Json)>) -> Seq<(Seq<char>, JsonValue)>
    decreases fields,
{
    if fields.len() == 0 {
        Seq::empty()
    } else {
        json_fields_view(fields.drop_last()).push(
            (fields.last().0@, json_view(fields.last().1)),
        )
    }
}

impl View for Json {
    type V = JsonValue;

    open spec fn view(&self) -> JsonValue {
        json_view(*self)
    }
}

pub proof fn lemma_items_view(items: Seq<Json>)
    ensures
        json_items_view(items).len() == items.len(),
        forall|i: int|
            0 <= i < items.len() ==> #[trigger] json_items_view(items)[i] == json_view(items[i]),
    decreases items.len(),
{
    if items.len() > 0 {
        lemma_items_view(items.drop_last());
    }
}

pub proof fn lemma_fields_view(fields: Seq<(String, Json)>)
    ensures
        json_fields_view(fields).len() == fields.len(),
        forall|i: int|
            0 <= i < fields.len() ==> #[trigger] json_fields_view(fields)[i] == (
                fields[i].0@,
                json_view(fields[i].1),
            ),
    decreases fields.len(),
{
    if fields.len() > 0 {
        lemma_fields_view(fields.drop_last());
    }
}

pub open spec fn opt_string_view(o: Option<String>) -> Option<Seq<char>> {
    match o {
        Some(s) => Some(s@),
        None => None,
    }
}

/// The view of an optional borrowed value.
pub open spec fn ref_view(o: Option<&Json>) -> Option<JsonValue> {
    match o {
        Some(j) => Some(j@),
        None => None,
    }
}

/// A copy of a JSON value.
pub fn clone_json(j: &Json) -> (r: Json)
    ensures
        r@ == j@,
    decreases j,
{
    match j {
        Json::Null => Json::Null,
        Json::Bool(b) => Json::Bool(*b),
        Json::Number(n) => Json::Number(clone_number(n)),
        Json::Str(s) => Json::Str(s.clone()),
        Json::Array(items) => {
            let mut out: Vec<Json> = Vec::new();
            let mut i: usize = 0;
            while i < items.len()
                invariant
                    i <= items.len(),
                    *j == Json::Array(*items),
                    json_items_view(out@) == json_items_view(items@.take(i as int)),
                decreases items.len() - i,
            {
                proof {
                    assert(decreases_to!(*j => (*j)->Array_0));
                    assert(decreases_to!(*items => items[i as int]));
                }
                let x = clone_json(&items[i]);
                let ghost before = out@;
                out.push(x);
                proof {
                    assert(out@.drop_last() == before);
                    assert(items@.take(i + 1).drop_last() == items@.take(i as int));
                }
                i = i + 1;
            }
            proof {
                assert(items@.take(items.len() as int) == items@);
            }
            Json::Array(out)
        },
        Json::Object(fields) => {
            let mut out: Vec<(String, Json)> = Vec::new();
            let mut i: usize = 0;
            while i < fields.len()
                invariant
                    i <= fields.len(),
                    *j == Json::Object(*fields),
                    json_fields_view(out@) == json_fields_view(fields@.take(i as int)),
                decreases fields.len() - i,
            {
                let k = fields[i].0.clone();
                proof {
                    assert(decreases_to!(*j => (*j)->Object_0));
                    assert(decreases_to!(*fields => fields[i as int]));
                    assert(decreases_to!(fields[i as int] => fields[i as int].1));
                }
                let x = clone_json(&fields[i].1);
                let ghost before = out@;
                out.push((k, x));
                proof {
                    assert(out@.drop_last() == before);
                    assert(fields@.take(i + 1).drop_last() == fields@.take(i as int));
                }
                i = i + 1;
            }
            proof {
                assert(fields@.take(fields.len() as int) == fields@);
            }
            Json::Object(out)
        },
    }
}

/// The first value stored under `key`.
pub open spec fn field_value(fields: Seq<(Seq<char>, JsonValue)>, key: Seq<char>) -> Option<JsonValue>
    decreases fields.len(),
{
    if fields.len() == 0 {
        None
    } else if fields[0].0 == key {
        Some(fields[0].1)
    } else {
        field_value(fields.drop_first(), key)
    }
}

/// A value found under a key is the value of one of the fields.
pub proof fn lemma_field_value_member(fields: Seq<(Seq<char>, JsonValue)>, key: Seq<char>)
    ensures
        field_value(fields, key) matches Some(v) ==> exists|i: int|
            0 <= i < fields.len() && #[trigger] fields[i].1 == v,
    decreases fields.len(),
{
    if fields.len() > 0 && fields[0].0 != key {
        let rest = fields.drop_first();
        lemma_field_value_member(rest, key);
        if let Some(v) = field_value(fields, key) {
            let i = choose|i: int| 0 <= i < rest.len() && #[trigger] rest[i].1 == v;
            assert(fields[i + 1] == rest[i]);
        }
    }
}

/// The element at `i` of an array form, if there is one.
pub open spec fn item_value(items: Seq<JsonValue>, i: int) -> Option<JsonValue> {
    if 0 <= i < items.len() {
        Some(items[i])
    } else {
        None
    }
}

/// A required string field.
pub open spec fn string_field(v: Option<JsonValue>) -> Option<Seq<char>> {
    match v {
        Some(JsonValue::Str(s)) => Some(s),
        _ => None,
    }
}

/// A required non-negative integer field.
pub open spec fn u64_field(v: Option<JsonValue>) -> Option<u64> {
    match v {
        Some(JsonValue::Number(NumberView::UInt(n))) => Some(n),
        _ => None,
    }
}

/// An optional string field: absent or `null` give `Some(None)`, a string
/// gives `Some(Some(..))`, anything else is an error (`None`).
pub open spec fn opt_string_field(v: Option<JsonValue>) -> Option<Option<Seq<char>>> {
    match v {
        None => Some(None),
        Some(JsonValue::Null) => Some(None),
        Some(JsonValue::Str(s)) => Some(Some(s)),
        _ => None,
    }
}

/// An optional field of any JSON type; `null` counts as absent.
pub open spec fn any_field(v: Option<JsonValue>) -> Option<JsonValue> {
    match v {
        None => None,
        Some(JsonValue::Null) => None,
        Some(x) => Some(x),
    }
}

/// The index of the first field stored under `key`.
pub(crate) fn find_field(fields: &Vec<(String, Json)>, key: &str) -> (r: Option<usize>)
    ensures
        match r {
            Some(i) => i < fields.len() && field_value(json_fields_view(fields@), key@) == Some(
                json_view(fields@[i as int].1),
            ) && json_fields_view(fields@)[i as int].0 == key@,
            None => field_value(json_fields_view(fields@), key@) is None,
        },
{
    proof {
        lemma_fields_view(fields@);
    }
    let ghost fv = json_fields_view(fields@);
    let mut i: usize = 0;
    proof {
        assert(fv.skip(0) == fv);
    }
    while i < fields.len()
        invariant
            i <= fields.len(),
            fv == json_fields_view(fields@),
            fv.len() == fields.len(),
            forall|k: int| 0 <= k < fields.len() ==> #[trigger] fv[k] == (fields@[k].0@, json_view(fields@[k].1)),
            field_value(fv, key@) == field_value(fv.skip(i as int), key@),
        decreases fields.len() - i,
    {
        assert(fv.skip(i as int)[0] == fv[i as int]);
        if str_equal(fields[i].0.as_str(), key) {
            return Some(i);
        }
        proof {
            assert(fv.skip(i as int).drop_first() == fv.skip(i + 1));
        }
        i = i + 1;
    }
    None
}

/// The value stored under `key`, borrowed.
pub(crate) fn lookup<'a>(fields: &'a Vec<(String, Json)>, key: &str) -> (r: Option<&'a Json>)
    ensures
        ref_view(r) == field_value(json_fields_view(fields@), key@),
{
    match find_field(fields, key) {
        Some(i) => Some(&fields[i].1),
        None => None,
    }
}

/// The element of an array at `i`, borrowed.
pub(crate) fn item<'a>(items: &'a Vec<Json>, i: usize) -> (r: Option<&'a Json>)
    ensures
        ref_view(r) == item_value(json_items_view(items@), i as int),
{
    proof {
        lemma_items_view(items@);
    }
    if i < items.len() {
        Some(&items[i])
    } else {
        None
    }
}

pub(crate) fn take_string(v: Option<&Json>) -> (r: Option<String>)
    ensures
        opt_string_view(r) == string_field(ref_view(v)),
{
    match v {
        Some(Json::Str(s)) => Some(s.clone()),
        _ => None,
    }
}

pub(crate) fn take_u64(v: Option<&Json>) -> (r: Option<u64>)
    ensures
        r == u64_field(ref_view(v)),
{
    match v {
        Some(Json::Number(JsonNumber::UInt(n))) => Some(*n),
        _ => None,
    }
}

pub(crate) fn take_opt_string(v: Option<&Json>) -> (r: Option<Option<String>>)
    ensures
        match r {
            Some(o) => opt_string_field(ref_view(v)) == Some(opt_string_view(o)),
            None => opt_string_field(ref_view(v)) is None,
        },
{
    match v {
        None => Some(None),
        Some(Json::Null) => Some(None),
        Some(Json::Str(s)) => Some(Some(s.clone())),
        _ => None,
    }
}

impl Clone for Json {
    fn clone(&self) -> (r: Json)
        ensures
            r@ == self@,
    {
        clone_json(self)
    }
}

/// The keys of an object strictly ascend in `str`'s order (so none occurs
/// twice).
pub open spec fn keys_ascending(fields: Seq<(Seq<char>, JsonValue)>) -> bool {
    forall|i: int, j: int| 0 <= i < j < fields.len() ==> text_lt(fields[i].0, fields[j].0)
}

/// Every object in the value, at any depth, has strictly ascending keys: the
/// shape `serde_json` gives a parsed document, whose objects are `BTreeMap`s
/// walked in key order.
pub open spec fn objects_sorted(v: JsonValue) -> bool
    decreases v,
{
    match v {
        JsonValue::Array(items) => forall|i: int|
            0 <= i < items.len() ==> objects_sorted(#[trigger] items[i]),
        JsonValue::Object(fields) => {
            &&& keys_ascending(fields)
            &&& forall|i: int| 0 <= i < fields.len() ==> objects_sorted(#[trigger] fields[i].1)
        },
        _ => true,
    }
}

/// The document that `serde_json` reads from a text, or `None` where the
/// text is not one JSON value (syntax error, trailing characters, nesting
/// deeper than its recursion limit).
pub uninterp spec fn json_document(text: Seq<char>) -> Option<JsonValue>;

/// Calls `serde_json::from_str::<serde_json::Value>`. Trusted: that the call
/// succeeds exactly when the named document exists, and that the value it
/// gives back, turned into [`Json`], is that document; and that each of its
/// objects lists its keys in ascending order, each once (`serde_json`'s
/// `Map` is a `BTreeMap` here, the `preserve_order` feature being off, and
/// is turned into a `Vec` by walking it).
#[verifier::external_body]
pub(crate) fn parse_json_document(text: &str) -> (r: Result<Json, serde_json::Error>)
    ensures
        r is Ok <==> json_document(text@) is Some,
        r matches Ok(j) ==> json_document(text@) == Some(j@),
        r matches Ok(j) ==> objects_sorted(j@),
{
    serde_json::from_str::<serde_json::Value>(text).map(json_from_value)
}

/// Turns a `serde_json::Value` into a [`Json`], one variant for one variant;
/// a number goes by `Number::as_u64`, then `Number::as_i64`, else it is a
/// float, kept as the text `Number`'s `Display` writes. Only [`parse_json_document`] calls it, and its contract covers it.
#[verifier::external_body]
fn json_from_value(v: serde_json::Value) -> Json {
    match v {
        serde_json::Value::Null => Json::Null,
        serde_json::Value::Bool(b) => Json::Bool(b),
        serde_json::Value::Number(n) => Json::Number(match (n.as_u64(), n.as_i64()) {
            (Some(u), _) => JsonNumber::UInt(u),
            (None, Some(i)) => JsonNumber::NegInt(i),
            (None, None) => JsonNumber::Float(n.to_string()),
        }),
        serde_json::Value::String(s) => Json::Str(s),
        serde_json::Value::Array(a) => Json::Array(a.into_iter().map(json_from_value).collect()),
        serde_json::Value::Object(o) => Json::Object(o.into_iter().map(|(k, x)| (k, json_from_value(x))).collect()),
    }
}

} // verus!
