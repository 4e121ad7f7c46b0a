//! JSON text: the calls into `serde_json`.

use vstd::prelude::*;

use crate::json::{Json, JsonV};

verus! {

broadcast use crate::value::json_view;

/// A JSON value of `serde_json`.
#[verifier::external_type_specification]
#[verifier::external_body]
pub struct ExValue(serde_json::Value);

/// What `serde_json::from_str` reads from a text; none when it reports an error.
pub uninterp spec fn parsed(text: Seq<char>) -> Option<JsonV>;

/// What `serde_json::from_slice` reads from bytes, or the message of its error.
pub uninterp spec fn parsed_bytes(bytes: Seq<u8>) -> Result<JsonV, Seq<char>>;

/// The compact text that a `serde_json::Value` displays as.
pub uninterp spec fn rendered(v: JsonV) -> Seq<char>;

/// The number that `serde_json::Number::from_f64` makes of a whole number.
pub uninterp spec fn whole_float(n: u32) -> serde_json::Number;

/// The number that a text stands for as a floating-point number: null when it
/// is not finite, none when the text is no number.
pub uninterp spec fn float_parsed(text: Seq<char>) -> Option<JsonV>;

/// A number as a floating-point number, cut to a whole one.
pub uninterp spec fn float_cut(v: JsonV) -> Option<i64>;

/// Whether two numbers are equal as floating-point numbers.
pub uninterp spec fn floats_equal(a: serde_json::Number, b: serde_json::Number) -> bool;

/// The value as `serde_json` holds it, variant by variant.
#[verifier::external_body]
pub(crate) fn value_of(j: &Json) -> serde_json::Value {
    match j {
        Json::Null => serde_json::Value::Null,
        Json::Bool(b) => serde_json::Value::Bool(*b),
        Json::Pos(n) => serde_json::Value::from(*n),
        Json::Neg(n) => serde_json::Value::from(*n),
        Json::Float(n) => serde_json::Value::Number(n.clone()),
        Json::Str(s) => serde_json::Value::String(s.clone()),
        Json::Arr(v) => serde_json::Value::Array(v.iter().map(value_of).collect()),
        Json::Obj(m) => {
            serde_json::Value::Object(m.iter().map(|p| (p.0.clone(), value_of(&p.1))).collect())
        },
    }
}

/// The value that `serde_json` holds, variant by variant.
#[verifier::external_body]
fn json_of(v: serde_json::Value) -> Json {
    match v {
        serde_json::Value::Null => Json::Null,
        serde_json::Value::Bool(b) => Json::Bool(b),
        serde_json::Value::Number(n) => match (n.as_u64(), n.as_i64()) {
            (Some(u), _) => Json::Pos(u),
            (None, Some(i)) => Json::Neg(i),
            (None, None) => Json::Float(n),
        },
        serde_json::Value::String(s) => Json::Str(s),
        serde_json::Value::Array(a) => Json::Arr(a.into_iter().map(json_of).collect()),
        serde_json::Value::Object(o) => {
            Json::Obj(o.into_iter().map(|p| (p.0, json_of(p.1))).collect())
        },
    }
}

/// A value that reads back as it is written: no floating-point number, only
/// negative numbers held as such, no key twice in an object, and no more than
/// `depth` lists and objects inside one another.
pub open spec fn readable(v: JsonV, depth: nat) -> bool
    decreases v,
{
    match v {
        JsonV::Float(_) => false,
        JsonV::Neg(n) => n < 0,
        JsonV::Arr(s) => depth > 0 && forall|i: int|
            0 <= i < s.len() ==> #[trigger] readable(s[i], (depth - 1) as nat),
        JsonV::Obj(m) => depth > 0 && crate::json::distinct_keys(m) && forall|i: int|
            0 <= i < m.len() ==> readable((#[trigger] m[i]).1, (depth - 1) as nat),
        _ => true,
    }
}

/// The compact JSON text of a value, by `serde_json::Value`'s `to_string`. What
/// it writes, `serde_json::from_str` reads back, members in their order, as long
/// as the value nests no deeper than the reader goes and holds no floating-point
/// number. The order is kept by the `preserve_order` feature of `serde_json`.
#[verifier::external_body]
pub(crate) fn to_text(j: &Json) -> (s: String)
    ensures
        s@ == rendered(j@),
        readable(j@, 127) ==> parsed(s@) == Some(j@),
{
    value_of(j).to_string()
}

/// Reads a JSON text with `serde_json::from_str`.
#[verifier::external_body]
pub(crate) fn from_text(s: &str) -> (r: Option<Json>)
    ensures
        match r {
            Some(j) => parsed(s@) == Some(j@),
            None => parsed(s@) is None,
        },
{
    serde_json::from_str::<serde_json::Value>(s).ok().map(json_of)
}

/// Reads JSON bytes with `serde_json::from_slice`.
#[verifier::external_body]
pub(crate) fn from_bytes(b: &[u8]) -> (r: Result<Json, String>)
    ensures
        match r {
            Ok(j) => parsed_bytes(b@) == Ok::<JsonV, Seq<char>>(j@),
            Err(e) => parsed_bytes(b@) == Err::<JsonV, Seq<char>>(e@),
        },
{
    serde_json::from_slice::<serde_json::Value>(b).map(json_of).map_err(|e| e.to_string())
}

/// A whole number as a floating-point number, by `serde_json::Number::from_f64`,
/// which takes every finite number.
#[verifier::external_body]
pub(crate) fn float_of(n: u32) -> (r: Json)
    ensures
        r@ == JsonV::Float(whole_float(n)),
{
    Json::Float(serde_json::Number::from_f64(n.into()).unwrap())
}

/// The number that a text stands for, by the floating-point `str::parse`.
#[verifier::external_body]
pub(crate) fn float_from(s: &str) -> (r: Option<Json>)
    ensures
        match r {
            Some(j) => float_parsed(s@) == Some(j@),
            None => float_parsed(s@) is None,
        },
{
    s.parse().ok().map(|x| serde_json::Number::from_f64(x).map_or(Json::Null, Json::Float))
}

/// A number cut to a whole one, through `serde_json::Value::as_f64`; none of
/// what is no number.
#[verifier::external_body]
pub(crate) fn cut_float(j: &Json) -> (r: Option<i64>)
    ensures
        r == float_cut(j@),
        r is Some <==> j@ is Pos || j@ is Neg || j@ is Float,
{
    value_of(j).as_f64().map(|x| x as i64)
}

/// Whether two numbers are equal, by `serde_json::Number`'s `==`.
#[verifier::external_body]
pub(crate) fn same_float(a: &serde_json::Number, b: &serde_json::Number) -> (r: bool)
    ensures
        r == floats_equal(*a, *b),
{
    a == b
}

} // verus!
