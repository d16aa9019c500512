//! Reading model replies written in JSON, through `serde_json`.
use vstd::prelude::*;
use serde_json::Value;

verus! {

/// A JSON value as the segment logic reads it: a number (in the text that
/// `serde_json` writes for it), a string, or anything else.
#[derive(Debug)]
pub enum JsonScalar {
    Number(String),
    Text(String),
    Other,
}

/// What a `JsonScalar` holds, by characters.
pub enum ScalarView {
    Number(Seq<char>),
    Text(Seq<char>),
    Other,
}

impl View for JsonScalar {
    type V = ScalarView;

    open spec fn view(&self) -> ScalarView {
        match self {
            JsonScalar::Number(s) => ScalarView::Number(s@),
            JsonScalar::Text(s) => ScalarView::Text(s@),
            JsonScalar::Other => ScalarView::Other,
        }
    }
}

/// One element of a JSON array, read at three keys: two scalars and an
/// optional string.
#[derive(Debug)]
pub struct JsonRecord {
    pub first: JsonScalar,
    pub second: JsonScalar,
    pub note: Option<String>,
}

/// What a `JsonRecord` holds, by characters.
pub struct RecordView {
    pub first: ScalarView,
    pub second: ScalarView,
    pub note: Option<Seq<char>>,
}

impl View for JsonRecord {
    type V = RecordView;

    open spec fn view(&self) -> RecordView {
        RecordView {
            first: self.first@,
            second: self.second@,
            note: match self.note {
                Some(s) => Some(s@),
                None => None,
            },
        }
    }
}

/// The string that `serde_json` finds in the JSON text `text` at
/// `[k1][i][k2][k3]`, if the text parses and a string stands there.
pub uninterp spec fn json_str_at(text: Seq<char>, k1: Seq<char>, i: nat, k2: Seq<char>, k3: Seq<char>) -> Option<Seq<char>>;

/// The elements of the JSON array `text`, each read at keys `k1`, `k2`
/// (scalars) and `k3` (a string), as `serde_json` parses them; `None` when the
/// text does not parse or is not an array.
pub uninterp spec fn json_records(text: Seq<char>, k1: Seq<char>, k2: Seq<char>, k3: Seq<char>) -> Option<Seq<RecordView>>;

/// Parses `text` with `serde_json::from_str` into a `serde_json::Value` and
/// reads `value[k1][i][k2][k3]` with `Value::as_str`. The result is named by
/// `json_str_at`; nothing more is stated of it.
#[verifier::external_body]
pub fn str_at(text: &str, k1: &str, i: usize, k2: &str, k3: &str) -> (r: Option<String>)
    ensures
        match r {
            Some(s) => json_str_at(text@, k1@, i as nat, k2@, k3@) == Some(s@),
            None => json_str_at(text@, k1@, i as nat, k2@, k3@) is None,
        },
{
    match serde_json::from_str::<Value>(text) {
        Ok(v) => v[k1][i][k2][k3].as_str().map(|s| s.to_string()),
        Err(_) => None,
    }
}

/// Parses `text` with `serde_json::from_str` into a `serde_json::Value` and,
/// when it is an array (`Value::as_array`), reads each element at `k1` and `k2`
/// (by `Index`: a number keeps the text its `Display` writes, a string its
/// characters, anything else, missing keys included, is `Other`) and at `k3`
/// (`Value::get` then `as_str`). The result is named by `json_records`.
#[verifier::external_body]
pub fn records(text: &str, k1: &str, k2: &str, k3: &str) -> (r: Option<Vec<JsonRecord>>)
    ensures
        match r {
            Some(v) => json_records(text@, k1@, k2@, k3@) == Some(v@.map_values(|x: JsonRecord| x@)),
            None => json_records(text@, k1@, k2@, k3@) is None,
        },
{
    let v: Value = serde_json::from_str(text).ok()?;
    let scalar = |x: &Value| match x {
        Value::Number(n) => JsonScalar::Number(n.to_string()),
        Value::String(s) => JsonScalar::Text(s.clone()),
        Value::Null => JsonScalar::Other,
        Value::Bool(_) => JsonScalar::Other,
        Value::Array(_) => JsonScalar::Other,
        Value::Object(_) => JsonScalar::Other,
    };
    let items = v.as_array()?;
    Some(items.iter().map(|it| JsonRecord {
        first: scalar(&it[k1]),
        second: scalar(&it[k2]),
        note: it.get(k3).and_then(|x| x.as_str()).map(|s| s.to_string()),
    }).collect())
}

} // verus!
