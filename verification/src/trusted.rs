//! The calls into outside crates that the engine relies on, each behind a
//! contract that Verus believes without proof.

use vstd::prelude::*;

verus! {

/// The value denoted by a JSON text, `None` when the text is not valid
/// JSON. The rendering is fixed by `serde_json` together with this crate's
/// value model: object keys come out sorted and unique, and a number is
/// taken at its integer part.
pub uninterp spec fn json_of(s: Seq<char>) -> Option<crate::value::ValV>;

/// The parse-error rendering that `serde_json` gives for a rejected text.
pub uninterp spec fn json_err_of(s: Seq<char>) -> Seq<char>;

/// Relies on `serde_json::from_str`: parses one JSON document. The result
/// is converted variant by variant into the library's value model; a
/// `serde_json` object is a map with sorted, unique keys, so the converted
/// value is well-formed.
#[verifier::external_body]
pub fn parse_json(s: &str) -> (r: Result<crate::value::Val, String>)
    ensures
        match r {
            Result::Ok(v) => json_of(s@) == Option::Some(v@) && crate::value::wf_val(v@),
            Result::Err(e) => json_of(s@) is None && e@ == json_err_of(s@),
        },
{
    match serde_json::from_str::<serde_json::Value>(s) {
        Ok(v) => Ok(value_from_json(v)),
        Err(e) => Err(e.to_string()),
    }
}

/// `serde_json`'s value tree, declared so that the converter below can
/// take it; the library never looks inside such a value.
#[verifier::external_type_specification]
#[verifier::external_body]
pub struct ExJsonValue(serde_json::Value);

/// Relies on `serde_json::Value`'s shape alone: each variant is moved into
/// the library's corresponding variant. A number is taken at its `i64`
/// value, and zero when it has none (a fraction, or out of range).
#[verifier::external_body]
fn value_from_json(v: serde_json::Value) -> crate::value::Val {
    match v {
        serde_json::Value::Null => crate::value::Val::Null,
        serde_json::Value::Bool(b) => crate::value::Val::Bool(b),
        serde_json::Value::Number(n) => crate::value::Val::Int(n.as_i64().unwrap_or(0)),
        serde_json::Value::String(s) => crate::value::Val::Str(s),
        serde_json::Value::Array(a) => crate::value::Val::Arr(
            a.into_iter().map(value_from_json).collect(),
        ),
        serde_json::Value::Object(m) => crate::value::Val::Obj(
            m.into_iter().map(|(k, x)| (k, value_from_json(x))).collect(),
        ),
    }
}

/// Relies on `uuid::Uuid::new_v4` and its hyphenated `Display` rendering:
/// a freshly generated random identifier is 36 characters long. Nothing
/// else is assumed of it; in particular no two calls are related.
#[verifier::external_body]
pub fn new_doc_id() -> (r: String)
    ensures
        r@.len() == 36,
{
    uuid::Uuid::new_v4().to_string()
}

} // verus!
