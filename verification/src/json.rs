//! JSON texts as values.
use vstd::prelude::*;

verus! {

/// A JSON value.
#[derive(Debug)]
pub enum JsonValue {
    Null,
    Bool(bool),
    /// A number as it is written; whether it fits a signed and an unsigned integer.
    Number { signed: bool, unsigned: bool, text: String },
    Text(String),
    Array(Vec<JsonValue>),
    Object(Vec<JsonEntry>),
}

/// An entry of a JSON object.
#[derive(Debug)]
pub struct JsonEntry {
    pub key: String,
    pub value: JsonValue,
}

/// What a [`JsonValue`] says, free of representation.
pub enum JsonModel {
    Null,
    Bool(bool),
    Number { signed: bool, unsigned: bool, text: Seq<char> },
    Text(Seq<char>),
    Array(Seq<JsonModel>),
    Object(Seq<JsonEntryModel>),
}

/// What a [`JsonEntry`] says, free of representation.
pub struct JsonEntryModel {
    pub key: Seq<char>,
    pub value: JsonModel,
}

impl JsonValue {
    /// The content of this value, free of representation.
    pub open spec fn model(self) -> JsonModel
        decreases self,
    {
        match self {
            JsonValue::Null => JsonModel::Null,
            JsonValue::Bool(b) => JsonModel::Bool(b),
            JsonValue::Number { signed, unsigned, text } => JsonModel::Number {
                signed,
                unsigned,
                text: text@,
            },
            JsonValue::Text(s) => JsonModel::Text(s@),
            JsonValue::Array(items) => JsonModel::Array(json_values_model(items@)),
            JsonValue::Object(entries) => JsonModel::Object(json_entries_model(entries@)),
        }
    }
}

/// The models of a list of values.
pub open spec fn json_values_model(s: Seq<JsonValue>) -> Seq<JsonModel>
    decreases s,
{
    Seq::new(
        s.len(),
        |i: int|
            if 0 <= i < s.len() {
                s[i].model()
            } else {
                arbitrary()
            },
    )
}

/// The models of a list of entries.
pub open spec fn json_entries_model(s: Seq<JsonEntry>) -> Seq<JsonEntryModel>
    decreases s,
{
    Seq::new(
        s.len(),
        |i: int|
            if 0 <= i < s.len() {
                JsonEntryModel { key: s[i].key@, value: s[i].value.model() }
            } else {
                arbitrary()
            },
    )
}

// ---------------------------------------------------------------------------
// Outside values
// ---------------------------------------------------------------------------

/// `serde_json::Value`, a tree of lists and maps.
#[verifier::external_type_specification]
#[verifier::external_body]
pub struct ExValue(serde_json::Value);

/// What a tree of lists and maps holds.
pub uninterp spec fn json_held(v: serde_json::Value) -> JsonModel;

/// The value that `serde_json::from_str` reads from a text, or its complaint.
pub uninterp spec fn json_of_text(s: Seq<char>) -> Result<JsonModel, Seq<char>>;

/// The values that `serde_json::from_str` reads from the text of a list, or its complaint.
pub uninterp spec fn json_list_of_text(s: Seq<char>) -> Result<Seq<JsonModel>, Seq<char>>;

/// The text, as bytes, that `serde_json::to_vec` writes for a value.
pub uninterp spec fn json_bytes(m: JsonModel) -> Seq<u8>;

/// What each tree of a list holds.
pub open spec fn all_held(s: Seq<serde_json::Value>) -> Seq<JsonModel> {
    Seq::new(s.len(), |i: int| json_held(s[i]))
}

/// The outermost layer of a tree.
pub enum JsonLayer<'a> {
    Null,
    Bool(bool),
    Number { signed: bool, unsigned: bool, text: String },
    Text(String),
    Array(&'a Vec<serde_json::Value>),
    Object(Vec<(&'a String, &'a serde_json::Value)>),
}

impl<'a> JsonLayer<'a> {
    /// What the tree with this outermost layer holds.
    pub open spec fn model(self) -> JsonModel {
        match self {
            JsonLayer::Null => JsonModel::Null,
            JsonLayer::Bool(b) => JsonModel::Bool(b),
            JsonLayer::Number { signed, unsigned, text } => JsonModel::Number {
                signed,
                unsigned,
                text: text@,
            },
            JsonLayer::Text(s) => JsonModel::Text(s@),
            JsonLayer::Array(items) => JsonModel::Array(all_held(items@)),
            JsonLayer::Object(entries) => JsonModel::Object(
                Seq::new(
                    entries@.len(),
                    |i: int|
                        JsonEntryModel { key: entries@[i].0@, value: json_held(*entries@[i].1) },
                ),
            ),
        }
    }
}

/// Calls `serde_json::from_str` for one value. How JSON is written is not stated: the value and the
/// complaint are named.
#[verifier::external_body]
pub(crate) fn read_value(text: &str) -> (r: Result<serde_json::Value, String>)
    ensures
        match r {
            Ok(v) => json_of_text(text@) == Ok::<JsonModel, Seq<char>>(json_held(v)),
            Err(e) => json_of_text(text@) == Err::<JsonModel, Seq<char>>(e@),
        },
{
    serde_json::from_str::<serde_json::Value>(text).map_err(|e| e.to_string())
}

/// Calls `serde_json::from_str` for a list of values. How JSON is written is not stated: the values
/// and the complaint are named.
#[verifier::external_body]
pub(crate) fn read_list(text: &str) -> (r: Result<Vec<serde_json::Value>, String>)
    ensures
        match r {
            Ok(v) => json_list_of_text(text@) == Ok::<Seq<JsonModel>, Seq<char>>(all_held(v@)),
            Err(e) => json_list_of_text(text@) == Err::<Seq<JsonModel>, Seq<char>>(e@),
        },
{
    serde_json::from_str::<Vec<serde_json::Value>>(text).map_err(|e| e.to_string())
}

/// Calls `serde_json::to_vec`, which does not fail on such trees. How JSON is written is not
/// stated: the bytes are named.
#[verifier::external_body]
pub(crate) fn value_bytes(v: &serde_json::Value) -> (r: Vec<u8>)
    ensures
        r@ == json_bytes(json_held(*v)),
{
    serde_json::to_vec(v).unwrap_or_default()
}

/// Tells the variants of `serde_json::Value` apart and hands out what they hold: of a number what
/// `Number::is_i64`, `Number::is_u64` and its text say, of a map its entries in its own order.
#[verifier::external_body]
pub(crate) fn outermost<'a>(v: &'a serde_json::Value) -> (r: JsonLayer<'a>)
    ensures
        r.model() == json_held(*v),
{
    match v {
        serde_json::Value::Null => JsonLayer::Null,
        serde_json::Value::Bool(b) => JsonLayer::Bool(*b),
        serde_json::Value::Number(n) => {
            JsonLayer::Number { signed: n.is_i64(), unsigned: n.is_u64(), text: n.to_string() }
        },
        serde_json::Value::String(s) => JsonLayer::Text(s.clone()),
        serde_json::Value::Array(a) => JsonLayer::Array(a),
        serde_json::Value::Object(o) => JsonLayer::Object(o.iter().collect()),
    }
}

// ---------------------------------------------------------------------------
// Reading
// ---------------------------------------------------------------------------

fn value_of(v: &serde_json::Value) -> (r: JsonValue)
    ensures
        r.model() == json_held(*v),
    decreases json_held(*v),
{
    match outermost(v) {
        JsonLayer::Null => JsonValue::Null,
        JsonLayer::Bool(b) => JsonValue::Bool(b),
        JsonLayer::Number { signed, unsigned, text } => JsonValue::Number { signed, unsigned, text },
        JsonLayer::Text(s) => JsonValue::Text(s),
        JsonLayer::Array(items) => {
            let ghost held = all_held(items@);
            let mut out: Vec<JsonValue> = Vec::new();
            let mut i: usize = 0;
            while i < items.len()
                invariant
                    i <= items.len(),
                    json_held(*v) == JsonModel::Array(held),
                    held == all_held(items@),
                    out.len() == i,
                    forall|j: int| 0 <= j < i ==> (#[trigger] out[j]).model() == json_held(items[j]),
                decreases items.len() - i,
            {
                assert(held[i as int] == json_held(items[i as int]));
                assert(decreases_to!(json_held(*v) => json_held(*v)->Array_0[i as int]));
                out.push(value_of(&items[i]));
                i += 1;
            }
            assert(json_values_model(out@) =~= all_held(items@));
            JsonValue::Array(out)
        },
        JsonLayer::Object(entries) => {
            let ghost held = JsonLayer::Object(entries).model()->Object_0;
            let mut out: Vec<JsonEntry> = Vec::new();
            let mut i: usize = 0;
            while i < entries.len()
                invariant
                    i <= entries.len(),
                    json_held(*v) == JsonModel::Object(held),
                    held == JsonLayer::Object(entries).model()->Object_0,
                    out.len() == i,
                    forall|j: int|
                        0 <= j < i ==> (#[trigger] out[j]).key@ == held[j].key && out[j].value.model()
                            == held[j].value,
                decreases entries.len() - i,
            {
                assert(decreases_to!(json_held(*v) => held[i as int].value));
                let key = entries[i].0.clone();
                out.push(JsonEntry { key, value: value_of(entries[i].1) });
                i += 1;
            }
            assert(json_entries_model(out@) =~= held);
            JsonValue::Object(out)
        },
    }
}

/// Reads one JSON value.
pub fn parse_json(text: &str) -> (r: Result<JsonValue, String>)
    ensures
        match r {
            Ok(v) => json_of_text(text@) == Ok::<JsonModel, Seq<char>>(v.model()),
            Err(e) => json_of_text(text@) == Err::<JsonModel, Seq<char>>(e@),
        },
{
    match read_value(text) {
        Ok(v) => Ok(value_of(&v)),
        Err(e) => Err(e),
    }
}

/// Reads a JSON list.
pub fn parse_json_list(text: &str) -> (r: Result<Vec<JsonValue>, String>)
    ensures
        match r {
            Ok(v) => json_list_of_text(text@) == Ok::<Seq<JsonModel>, Seq<char>>(
                json_values_model(v@),
            ),
            Err(e) => json_list_of_text(text@) == Err::<Seq<JsonModel>, Seq<char>>(e@),
        },
{
    let items = match read_list(text) {
        Ok(v) => v,
        Err(e) => {
            return Err(e);
        },
    };
    let mut out: Vec<JsonValue> = Vec::new();
    let mut i: usize = 0;
    while i < items.len()
        invariant
            i <= items.len(),
            out.len() == i,
            forall|j: int| 0 <= j < i ==> (#[trigger] out[j]).model() == json_held(items[j]),
        decreases items.len() - i,
    {
        out.push(value_of(&items[i]));
        i += 1;
    }
    assert(json_values_model(out@) =~= all_held(items@));
    Ok(out)
}

/// The first `n` values, each on a line of its own.
pub open spec fn json_lines_of(values: Seq<JsonModel>, n: int) -> Seq<u8>
    decreases n,
{
    if n <= 0 {
        Seq::empty()
    } else {
        json_lines_of(values, n - 1) + json_bytes(values[n - 1]).push(10u8)
    }
}

/// The values of a JSON list, each on a line of its own; `None` for a list without values.
pub fn list_to_lines(text: &str) -> (r: Result<Option<Vec<u8>>, String>)
    ensures
        match json_list_of_text(text@) {
            Ok(values) => r matches Ok(o) && if values.len() == 0 {
                o is None
            } else {
                o matches Some(b) && b@ == json_lines_of(values, values.len() as int)
            },
            Err(m) => r matches Err(e) && e@ == m,
        },
{
    let items = match read_list(text) {
        Ok(v) => v,
        Err(e) => {
            return Err(e);
        },
    };
    if items.len() == 0 {
        return Ok(None);
    }
    let mut out: Vec<u8> = Vec::new();
    let mut i: usize = 0;
    while i < items.len()
        invariant
            i <= items.len(),
            out@ == json_lines_of(all_held(items@), i as int),
        decreases items.len() - i,
    {
        let ghost before = out@;
        let mut line = value_bytes(&items[i]);
        line.push(10);
        out.append(&mut line);
        assert(out@ =~= before + json_bytes(json_held(items[i as int])).push(10u8));
        i += 1;
    }
    Ok(Some(out))
}

} // verus!
