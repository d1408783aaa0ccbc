//! JSON text and its compressed form: base64 of the gzip of the JSON text.
use vstd::prelude::*;
use crate::error::DecodeError;
use crate::json::{canonical, opt_string_view, Json, JsonValue};
use vstd::string::StringSliceAdditionalSpecFns;

verus! {

#[verifier::external_type_specification]
#[verifier::external_body]
pub struct ExSerdeJsonValue(serde_json::Value);

/// What standard base64 decoding makes of a text, if it is valid base64.
pub uninterp spec fn base64_decoded(s: Seq<char>) -> Option<Seq<u8>>;

/// The standard, padded base64 text of some bytes.
pub uninterp spec fn base64_encoded(b: Seq<u8>) -> Seq<char>;

/// The bytes that a gzip stream holds, if it is one.
pub uninterp spec fn gunzipped(b: Seq<u8>) -> Option<Seq<u8>>;

/// The gzip stream, at the default level, of some bytes.
pub uninterp spec fn gzipped(b: Seq<u8>) -> Seq<u8>;

/// The JSON value that some bytes hold, if they are JSON text.
pub uninterp spec fn json_parsed(b: Seq<u8>) -> Option<Json>;

/// The compact JSON text of a value; none where a number's text is not one
/// that the JSON writer reads as a number.
pub uninterp spec fn json_text(v: Json) -> Option<Seq<u8>>;

pub open spec fn opt_bytes_view(o: Option<Vec<u8>>) -> Option<Seq<u8>> {
    match o {
        Some(b) => Some(b@),
        None => None,
    }
}

/// Relies on base64's `Engine::decode` with the `STANDARD` engine.
#[verifier::external_body]
fn base64_decode(s: &str) -> (r: Option<Vec<u8>>)
    ensures
        opt_bytes_view(r) == base64_decoded(s@),
{
    base64::Engine::decode(&base64::engine::general_purpose::STANDARD, s).ok()
}

/// Relies on base64's `Engine::encode` with the `STANDARD` engine.
#[verifier::external_body]
fn base64_encode(b: &Vec<u8>) -> (r: String)
    ensures
        r@ == base64_encoded(b@),
{
    base64::Engine::encode(&base64::engine::general_purpose::STANDARD, b)
}

/// Relies on flate2's `read::GzDecoder`, read to the end.
#[verifier::external_body]
fn gunzip(b: &Vec<u8>) -> (r: Option<Vec<u8>>)
    ensures
        opt_bytes_view(r) == gunzipped(b@),
{
    let mut out = Vec::new();
    let mut decoder = flate2::read::GzDecoder::new(b.as_slice());
    std::io::Read::read_to_end(&mut decoder, &mut out).ok().map(|_| out)
}

/// Relies on flate2's `write::GzEncoder` at `Compression::default()`, writing
/// into a `Vec`, which does not fail.
#[verifier::external_body]
fn gzip(b: &Vec<u8>) -> (r: Option<Vec<u8>>)
    ensures
        opt_bytes_view(r) == Some(gzipped(b@)),
{
    let mut encoder = flate2::write::GzEncoder::new(Vec::new(), flate2::Compression::default());
    std::io::Write::write_all(&mut encoder, b).and_then(|_| encoder.finish()).ok()
}

/// Relies on serde_json's `from_slice::<Value>`; the value is then carried
/// over to `JsonValue` field by field.
#[verifier::external_body]
fn parse_json_bytes(b: &[u8]) -> (r: Option<JsonValue>)
    ensures
        match r {
            Some(v) => json_parsed(b@) == Some(v.view()),
            None => json_parsed(b@) is None,
        },
{
    serde_json::from_slice::<serde_json::Value>(b).ok().map(from_serde)
}

/// Relies on serde_json's `to_vec` on the value carried over to
/// `serde_json::Value`; a number whose text serde_json does not read gives `None`.
#[verifier::external_body]
fn json_to_bytes(v: &JsonValue) -> (r: Option<Vec<u8>>)
    ensures
        opt_bytes_view(r) == json_text(v.view()),
{
    to_serde(v).and_then(|x| serde_json::to_vec(&x).ok())
}

/// Carries a `serde_json::Value` over to `JsonValue`, variant by variant.
#[verifier::external_body]
fn from_serde(v: serde_json::Value) -> JsonValue {
    match v {
        serde_json::Value::Null => JsonValue::Null,
        serde_json::Value::Bool(b) => JsonValue::Bool(b),
        serde_json::Value::Number(n) => JsonValue::Number(n.to_string()),
        serde_json::Value::String(s) => JsonValue::Str(s),
        serde_json::Value::Array(xs) => JsonValue::Array(xs.into_iter().map(from_serde).collect()),
        serde_json::Value::Object(m) => JsonValue::Object(m.into_iter().map(|(k, x)| (k, from_serde(x))).collect()),
    }
}

/// Carries a `JsonValue` over to `serde_json::Value`, variant by variant.
#[verifier::external_body]
fn to_serde(v: &JsonValue) -> Option<serde_json::Value> {
    Some(match v {
        JsonValue::Null => serde_json::Value::Null,
        JsonValue::Bool(b) => serde_json::Value::Bool(*b),
        JsonValue::Number(n) => serde_json::Value::Number(serde_json::from_str(n).ok()?),
        JsonValue::Str(s) => serde_json::Value::String(s.clone()),
        JsonValue::Array(xs) => serde_json::Value::Array(xs.iter().map(to_serde).collect::<Option<_>>()?),
        JsonValue::Object(fs) => serde_json::Value::Object(fs.iter().map(|(k, x)| Some((k.clone(), to_serde(x)?))).collect::<Option<_>>()?),
    })
}

/// Reads JSON text.
pub fn parse_json(text: &str) -> (r: Result<JsonValue, DecodeError>)
    ensures
        match json_parsed(text.spec_bytes()) {
            Some(v) => r matches Ok(x) && x.view() == v,
            None => r == Err::<JsonValue, DecodeError>(DecodeError::MalformedJson),
        },
{
    match parse_json_bytes(text.as_bytes()) {
        Some(v) => Ok(v),
        None => Err(DecodeError::MalformedJson),
    }
}

/// The compressed form read back: base64-decode, gunzip, read the JSON text,
/// then sort the keys of every object.
pub open spec fn decompressed(text: Seq<char>) -> Result<Json, DecodeError> {
    match base64_decoded(text) {
        None => Err(DecodeError::MalformedBase64),
        Some(z) => match gunzipped(z) {
            None => Err(DecodeError::DecompressionFailure),
            Some(t) => match json_parsed(t) {
                None => Err(DecodeError::MalformedJson),
                Some(v) => Ok(canonical(v)),
            },
        },
    }
}

/// Reads a compressed JSON value; the result is in canonical key order.
pub fn decode_compressed(text: &str) -> (r: Result<JsonValue, DecodeError>)
    ensures
        match decompressed(text@) {
            Ok(v) => r matches Ok(x) && x.view() == v,
            Err(e) => r == Err::<JsonValue, DecodeError>(e),
        },
{
    let zipped = match base64_decode(text) {
        Some(z) => z,
        None => {
            return Err(DecodeError::MalformedBase64);
        },
    };
    let bytes = match gunzip(&zipped) {
        Some(b) => b,
        None => {
            return Err(DecodeError::DecompressionFailure);
        },
    };
    match parse_json_bytes(bytes.as_slice()) {
        Some(v) => Ok(v.canonicalize()),
        None => Err(DecodeError::MalformedJson),
    }
}

/// The compressed form of a value, keys sorted first so that equal values
/// give equal text.
pub open spec fn compressed(v: Json) -> Option<Seq<char>> {
    match json_text(canonical(v)) {
        Some(t) => Some(base64_encoded(gzipped(t))),
        None => None,
    }
}

/// Writes a value in compressed form, keys sorted first. `None` exactly where
/// the JSON writer refuses a number's text.
pub fn encode_compressed(v: &JsonValue) -> (r: Option<String>)
    ensures
        opt_string_view(r) == compressed(v.view()),
{
    let c = v.canonicalize();
    let text = json_to_bytes(&c)?;
    let zipped = gzip(&text)?;
    Some(base64_encode(&zipped))
}

} // verus!
