//! The probe parse: the one place the library leans on serde_json. A byte
//! sequence either starts with one complete JSON value (which spans a known
//! number of bytes), is not JSON, or ends before the value does; the names
//! below stand for that outcome and for the library value a parsed
//! serde_json value converts to.

use vstd::prelude::*;
use crate::json::{JsonRep, JsonValue};

verus! {

/// The model of a probe parse outcome: the first value's model and the
/// count of bytes it spans, a syntax failure, or premature end of input.
pub enum ParseRep {
    Parsed(JsonRep, int),
    Syntax,
    Incomplete,
}

/// Name for what serde_json's stream deserializer yields on a byte
/// sequence. The outcome depends on the bytes alone.
pub uninterp spec fn spec_parse_json(s: Seq<u8>) -> ParseRep;

/// Name for the library value a serde_json value converts to. The result
/// depends on the value alone.
pub uninterp spec fn json_of(v: serde_json::Value) -> JsonRep;

#[verifier::external_type_specification]
#[verifier::external_body]
pub struct ExValue(serde_json::Value);

/// The outcome of a probe parse, as executable data.
pub enum ParseOutcome {
    Value(JsonValue, usize),
    Syntax,
    Incomplete,
}

/// Relies on the serde_json value model: each variant of
/// `serde_json::Value` carries what the matching library variant holds,
/// with `Number::to_string` as the number's canonical textual form and
/// object entries in their parse order.
#[verifier::external_body]
fn convert_value(v: &serde_json::Value) -> (r: JsonValue)
    ensures
        r.rep() == json_of(*v),
{
    match v {
        serde_json::Value::Null => JsonValue::Null,
        serde_json::Value::Bool(b) => JsonValue::Bool(*b),
        serde_json::Value::Number(n) => JsonValue::Num(n.to_string().into_bytes()),
        serde_json::Value::String(s) => JsonValue::Str(s.as_bytes().to_vec()),
        serde_json::Value::Array(xs) => JsonValue::Arr(xs.iter().map(convert_value).collect()),
        serde_json::Value::Object(m) => JsonValue::Obj(
            m.iter().map(|(k, w)| (k.as_bytes().to_vec(), convert_value(w))).collect(),
        ),
    }
}

/// Relies on serde_json::Deserializer::from_slice with a stream iterator:
/// `next` parses the first JSON value of the slice, after which
/// `byte_offset` tells how many bytes the value spans; an error whose
/// category is end-of-input means the slice ended inside a value, any
/// other error (no I/O can occur on a slice) means the bytes are not
/// JSON, and an empty stream means more input could still bring a value.
#[verifier::external_body]
pub(crate) fn parse_value_prefix(bytes: &[u8]) -> (r: ParseOutcome)
    ensures
        (match r {
            ParseOutcome::Value(v, c) => spec_parse_json(bytes@) == ParseRep::Parsed(
                v.rep(),
                c as int,
            ) && 0 < c <= bytes@.len(),
            ParseOutcome::Syntax => spec_parse_json(bytes@) == ParseRep::Syntax,
            ParseOutcome::Incomplete => spec_parse_json(bytes@) == ParseRep::Incomplete,
        }),
{
    let mut stream = serde_json::Deserializer::from_slice(bytes).into_iter::<serde_json::Value>();
    match stream.next() {
        Some(Ok(v)) => ParseOutcome::Value(convert_value(&v), stream.byte_offset()),
        Some(Err(e)) => if e.is_eof() {
            ParseOutcome::Incomplete
        } else {
            ParseOutcome::Syntax
        },
        None => ParseOutcome::Incomplete,
    }
}

/// Name for what str::from_utf8 decides: whether the bytes are one valid
/// UTF-8 encoded string.
pub uninterp spec fn spec_is_utf8(s: Seq<u8>) -> bool;

/// Relies on std::str::from_utf8: it returns Ok exactly when the bytes
/// are valid UTF-8.
#[verifier::external_body]
pub(crate) fn is_utf8(bytes: &[u8]) -> (r: bool)
    ensures
        r == spec_is_utf8(bytes@),
{
    std::str::from_utf8(bytes).is_ok()
}

} // verus!
