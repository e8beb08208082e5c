//! Parsing JSON text into the crate's own value sum.

use vstd::prelude::*;

use crate::value::JsonV;

verus! {

/// What a JSON text parses to, or `None` when it is not valid JSON.  The
/// result depends on the text alone.
pub uninterp spec fn json_of(s: Seq<char>) -> Option<JsonV>;

/// Relies on `serde_json::from_str`: parse a JSON text, `None` on a parse
/// failure.  Numbers keep their literal rendering.
#[verifier::external_body]
pub fn parse_json(s: &str) -> (r: Option<crate::value::Json>)
    ensures
        match r {
            Option::Some(v) => json_of(s@) == Option::Some(v@),
            Option::None => json_of(s@) is None,
        },
{
    match serde_json::from_str::<serde_json::Value>(s) {
        Ok(v) => Option::Some(convert_json(&v)),
        Err(_e) => Option::None,
    }
}

/// The converting half of [`parse_json`]: each `serde_json::Value` variant
/// moved into the crate's own sum, one arm per variant.  Carries no
/// contract of its own; `parse_json` states the contract of the
/// composition.
#[verifier::external_body]
fn convert_json(v: &serde_json::Value) -> crate::value::Json {
    match v {
        serde_json::Value::Null => crate::value::Json::Null,
        serde_json::Value::Bool(b) => crate::value::Json::Bool(*b),
        serde_json::Value::Number(n) => crate::value::Json::Num(n.to_string()),
        serde_json::Value::String(s) => crate::value::Json::Str(s.clone()),
        serde_json::Value::Array(a) => crate::value::Json::Arr(
            a.iter().map(convert_json).collect(),
        ),
        serde_json::Value::Object(m) => crate::value::Json::Obj(
            m.iter().map(|(k, x)| (k.clone(), convert_json(x))).collect(),
        ),
    }
}

/// The declaration that lets `serde_json::Value` stand in a signature.
#[verifier::external_type_specification]
#[verifier::external_body]
pub struct ExJsonValue(serde_json::Value);

} // verus!
