//! Trusted boundary to `serde_json`: the schema layer that turns frame
//! bodies into JSON values and outbound envelopes into JSON text. Every
//! function here only calls into `serde_json` (or `core::str`) and converts
//! values; what each call does is stated over `JsonModel`, a specification
//! picture of what a JSON value holds.

use vstd::prelude::*;
use vstd::string::StringSliceAdditionalSpecFns;

verus! {

/// Declares `serde_json::Value`, the parsed form of a JSON document, so it
/// can stand in signatures; only the calls below look inside one.
#[verifier::external_type_specification]
#[verifier::external_body]
pub struct ExValue(serde_json::Value);

/// Declares `serde_json::Map`, the object type JSON envelopes are built
/// from, so it can stand in signatures.
#[verifier::external_type_specification]
#[verifier::external_body]
#[verifier::reject_recursive_types(K)]
#[verifier::reject_recursive_types(V)]
pub struct ExJsonMap<K, V>(serde_json::Map<K, V>);

/// What a JSON value holds, as far as this transport reads it: booleans,
/// integers that fit in `i64`, text, and objects keyed by their field names.
/// `Other` stands for everything the transport passes through but never
/// inspects — null, arrays, and numbers outside `i64`.
pub enum JsonModel {
    Bool(bool),
    Int(i64),
    Text(Seq<char>),
    Object(Map<Seq<char>, JsonModel>),
    Other,
}

/// What a `serde_json::Value` holds. `Int(n)` stands for exactly the numbers
/// whose `as_i64` is `Some(n)`; `Other` for null, arrays, and the remaining
/// numbers. The accessor and builder contracts below pin this meaning.
pub uninterp spec fn value_model(v: serde_json::Value) -> JsonModel;

/// What a `serde_json::Map` — a JSON object under construction — holds.
pub uninterp spec fn map_model(m: serde_json::Map<String, serde_json::Value>) -> Map<
    Seq<char>,
    JsonModel,
>;

/// What `serde_json::from_str::<Value>` makes of a text: `None` when the
/// text is not JSON, else the model of the parsed value. Parsing is a
/// function of the text alone.
pub uninterp spec fn json_parsed(text: Seq<char>) -> Option<JsonModel>;

/// The JSON text `serde_json::to_string` renders a scalar value as; for a
/// scalar the text is a function of the model alone.
pub uninterp spec fn json_text(m: JsonModel) -> Seq<char>;

/// The JSON bytes `serde_json::to_vec` produces for one object whose fields
/// are all scalars; with its keys kept sorted, those bytes are a function of
/// the model alone.
pub uninterp spec fn json_bytes(m: JsonModel) -> Seq<u8>;

/// A model whose text is pinned down: a boolean, an integer, or a string.
pub open spec fn model_scalar(m: JsonModel) -> bool {
    m is Bool || m is Int || m is Text
}

/// One object all of whose fields are scalars — the shape of every envelope
/// this transport emits.
pub open spec fn model_flat_object(m: JsonModel) -> bool {
    m matches JsonModel::Object(fields) && (forall|k: Seq<char>|
        fields.dom().contains(k) ==> model_scalar(#[trigger] fields[k]))
}

/// Relies on `core::str::from_utf8`: it succeeds exactly on valid UTF-8 and
/// returns the same bytes as text.
#[verifier::external_body]
pub(crate) fn utf8_str(bytes: &[u8]) -> (r: Result<&str, ()>)
    ensures
        r is Ok <==> vstd::utf8::valid_utf8(bytes@),
        r matches Ok(s) ==> s.spec_bytes() == bytes@,
{
    core::str::from_utf8(bytes).map_err(|_| ())
}

/// Relies on `serde_json::from_str::<Value>`: parses JSON text into a value,
/// failing exactly on text that is not JSON.
#[verifier::external_body]
pub(crate) fn json_parse(text: &str) -> (r: Result<serde_json::Value, ()>)
    ensures
        r is Ok <==> json_parsed(text@) is Some,
        r matches Ok(v) ==> json_parsed(text@) == Some(value_model(v)),
{
    serde_json::from_str(text).map_err(|_| ())
}

/// Relies on `serde_json::Value::get` with a string index: on an object it
/// looks the key up; on anything else it finds nothing.
#[verifier::external_body]
pub(crate) fn json_get<'a>(v: &'a serde_json::Value, key: &str) -> (r: Option<
    &'a serde_json::Value,
>)
    ensures
        ({
            let m = value_model(*v);
            match r {
                Some(f) => m matches JsonModel::Object(fields) && fields.dom().contains(key@)
                    && value_model(*f) == fields[key@],
                None => !(m matches JsonModel::Object(fields) && fields.dom().contains(key@)),
            }
        }),
{
    v.get(key)
}

/// Relies on `serde_json::Value::as_i64`: the number as an `i64`, exactly
/// when it is one that fits.
#[verifier::external_body]
pub(crate) fn json_as_i64(v: &serde_json::Value) -> (r: Option<i64>)
    ensures
        r == (match value_model(*v) {
            JsonModel::Int(n) => Some(n),
            _ => None,
        }),
{
    v.as_i64()
}

/// Relies on `serde_json::Value::as_str`: the value as text, exactly when it
/// is a string.
#[verifier::external_body]
pub(crate) fn json_as_str<'a>(v: &'a serde_json::Value) -> (r: Option<&'a str>)
    ensures
        match r {
            Some(s) => value_model(*v) == JsonModel::Text(s@),
            None => !(value_model(*v) is Text),
        },
{
    v.as_str()
}

/// Relies on `serde_json::Value::as_bool`: the value as a boolean, exactly
/// when it is one.
#[verifier::external_body]
pub(crate) fn json_as_bool(v: &serde_json::Value) -> (r: Option<bool>)
    ensures
        r == (match value_model(*v) {
            JsonModel::Bool(b) => Some(b),
            _ => None,
        }),
{
    v.as_bool()
}

/// Relies on `serde_json::to_string` on a `Value`: the JSON text of the
/// value. It cannot fail on a `Value`, and on a scalar the text is pinned.
#[verifier::external_body]
pub(crate) fn json_raw_text(v: &serde_json::Value) -> (r: Result<String, ()>)
    ensures
        r is Ok,
        r matches Ok(s) ==> (model_scalar(value_model(*v)) ==> s@ == json_text(value_model(*v))),
{
    serde_json::to_string(v).map_err(|_| ())
}

/// Relies on `serde_json::Map::new`: an empty JSON object.
#[verifier::external_body]
pub(crate) fn json_map_new() -> (r: serde_json::Map<String, serde_json::Value>)
    ensures
        ({
            let empty: Map<Seq<char>, JsonModel> = Map::empty();
            map_model(r) == empty
        }),
{
    serde_json::Map::new()
}

/// Relies on `serde_json::Map::insert`: binds `key` to `val` in the object,
/// replacing any earlier binding.
#[verifier::external_body]
pub(crate) fn json_map_insert(
    m: &mut serde_json::Map<String, serde_json::Value>,
    key: &str,
    val: serde_json::Value,
)
    ensures
        map_model(*final(m)) == map_model(*old(m)).insert(key@, value_model(val)),
{
    m.insert(key.to_owned(), val);
}

/// Relies on `serde_json::Value::Object`: wraps an object as a value.
#[verifier::external_body]
pub(crate) fn json_object(m: serde_json::Map<String, serde_json::Value>) -> (r:
    serde_json::Value)
    ensures
        value_model(r) == JsonModel::Object(map_model(m)),
{
    serde_json::Value::Object(m)
}

/// Relies on `serde_json::Value::String`: wraps text as a value.
#[verifier::external_body]
pub(crate) fn json_string(s: &str) -> (r: serde_json::Value)
    ensures
        value_model(r) == JsonModel::Text(s@),
{
    serde_json::Value::String(s.to_owned())
}

/// Relies on `From<i64> for serde_json::Value`: wraps an integer as a value.
#[verifier::external_body]
pub(crate) fn json_i64(n: i64) -> (r: serde_json::Value)
    ensures
        value_model(r) == JsonModel::Int(n),
{
    serde_json::Value::from(n)
}

/// Relies on `serde_json::Value::Bool`: wraps a boolean as a value.
#[verifier::external_body]
pub(crate) fn json_bool(b: bool) -> (r: serde_json::Value)
    ensures
        value_model(r) == JsonModel::Bool(b),
{
    serde_json::Value::Bool(b)
}

/// Relies on `serde_json::to_vec` on a `Value`: the JSON text of the value
/// as UTF-8 bytes. It cannot fail on a `Value`; on a flat object of scalars
/// the bytes are pinned, and parsing them back recovers the same object —
/// integers in `i64`, booleans and strings round-trip exactly.
#[verifier::external_body]
pub(crate) fn json_to_bytes(v: &serde_json::Value) -> (r: Result<Vec<u8>, ()>)
    ensures
        r is Ok,
        r matches Ok(b) ==> (model_flat_object(value_model(*v)) ==> b@ == json_bytes(value_model(*v))),
        r matches Ok(b) ==> (model_flat_object(value_model(*v)) ==> json_parsed(vstd::utf8::decode_utf8(b@)) == Some(value_model(*v))),
{
    serde_json::to_vec(v).map_err(|_| ())
}

} // verus!
