//! A plain-data form of a parsed JSON document, as the safetensors header
//! decoder reads it, and the call into serde_json that produces it.
use vstd::prelude::*;

verus! {

/// A JSON number, as the accessors of serde_json's `Number` read it.
#[derive(Debug)]
pub struct JsonNumber {
    /// The value, where it is a non-negative integer that fits a `u64`.
    pub as_u64: Option<u64>,
    /// The value, where it is an integer that fits an `i64`.
    pub as_i64: Option<i64>,
    /// The bit pattern of the value as a 64-bit float.
    pub f64_bits: Option<u64>,
    /// The number's compact JSON text.
    pub text: String,
}

/// A parsed JSON value. Objects hold their entries sorted by key, one per
/// key; arrays and objects also carry their compact JSON text.
#[derive(Debug)]
pub enum JsonValue {
    Null,
    Bool(bool),
    Number(JsonNumber),
    String(String),
    Array(Vec<JsonValue>, String),
    Object(Vec<(String, JsonValue)>, String),
}

pub struct NumberModel {
    pub as_u64: Option<u64>,
    pub as_i64: Option<i64>,
    pub f64_bits: Option<u64>,
    pub text: Seq<char>,
}

pub enum JsonModel {
    Null,
    Bool(bool),
    Number(NumberModel),
    Str(Seq<char>),
    Array(Seq<JsonModel>, Seq<char>),
    Object(Seq<(Seq<char>, JsonModel)>, Seq<char>),
}

pub open spec fn number_model(n: JsonNumber) -> NumberModel {
    NumberModel { as_u64: n.as_u64, as_i64: n.as_i64, f64_bits: n.f64_bits, text: n.text@ }
}

pub open spec fn json_model(v: JsonValue) -> JsonModel
    decreases v,
{
    match v {
        JsonValue::Null => JsonModel::Null,
        JsonValue::Bool(b) => JsonModel::Bool(b),
        JsonValue::Number(n) => JsonModel::Number(number_model(n)),
        JsonValue::String(s) => JsonModel::Str(s@),
        JsonValue::Array(items, text) => JsonModel::Array(json_models(items@), text@),
        JsonValue::Object(entries, text) => JsonModel::Object(json_entry_models(entries@), text@),
    }
}

pub open spec fn json_models(s: Seq<JsonValue>) -> Seq<JsonModel>
    decreases s,
{
    if s.len() == 0 {
        Seq::empty()
    } else {
        json_models(s.drop_last()).push(json_model(s.last()))
    }
}

pub open spec fn json_entry_models(s: Seq<(String, JsonValue)>) -> Seq<(Seq<char>, JsonModel)>
    decreases s,
{
    if s.len() == 0 {
        Seq::empty()
    } else {
        json_entry_models(s.drop_last()).push((s.last().0@, json_model(s.last().1)))
    }
}

pub proof fn lemma_json_models(s: Seq<JsonValue>)
    ensures
        json_models(s).len() == s.len(),
        forall|i: int| 0 <= i < s.len() ==> #[trigger] json_models(s)[i] == json_model(s[i]),
    decreases s.len(),
{
    if s.len() > 0 {
        lemma_json_models(s.drop_last());
    }
}

pub proof fn lemma_json_entry_models(s: Seq<(String, JsonValue)>)
    ensures
        json_entry_models(s).len() == s.len(),
        forall|i: int| 0 <= i < s.len() ==> #[trigger] json_entry_models(s)[i] == (s[i].0@, json_model(s[i].1)),
    decreases s.len(),
{
    if s.len() > 0 {
        lemma_json_entry_models(s.drop_last());
    }
}

impl View for JsonValue {
    type V = JsonModel;

    open spec fn view(&self) -> JsonModel {
        json_model(*self)
    }
}

/// The document that a JSON text holds, as serde_json parses it, or `None`
/// where the text is not JSON.
pub uninterp spec fn json_of_text(text: Seq<char>) -> Option<JsonModel>;

#[verifier::external_type_specification]
#[verifier::external_body]
pub struct ExJsonValue(serde_json::Value);

/// Moves each variant of serde_json's `Value` into the matching variant of
/// [`JsonValue`], one for one, reading numbers through `Number`'s accessors.
#[verifier::external_body]
fn json_from_serde(v: serde_json::Value) -> JsonValue {
    let text = v.to_string();
    match v {
        serde_json::Value::Null => JsonValue::Null,
        serde_json::Value::Bool(b) => JsonValue::Bool(b),
        serde_json::Value::Number(n) => JsonValue::Number(JsonNumber {
            as_u64: n.as_u64(),
            as_i64: n.as_i64(),
            f64_bits: n.as_f64().map(|x| x.to_bits()),
            text,
        }),
        serde_json::Value::String(s) => JsonValue::String(s),
        serde_json::Value::Array(a) => JsonValue::Array(a.into_iter().map(json_from_serde).collect(), text),
        serde_json::Value::Object(o) => JsonValue::Object(o.into_iter().map(|(k, x)| (k, json_from_serde(x))).collect(), text),
    }
}

/// Relies on `serde_json::from_str::<serde_json::Value>`: the document the
/// text holds, or `None` where it is not JSON. Its objects are `BTreeMap`s,
/// so their entries come out sorted by key, one per key.
#[verifier::external_body]
pub fn parse_json(text: &str) -> (r: Option<JsonValue>)
    ensures
        match r {
            Some(j) => json_of_text(text@) == Some(j@),
            None => json_of_text(text@) is None,
        },
{
    serde_json::from_str::<serde_json::Value>(text).ok().map(json_from_serde)
}

} // verus!
