//! Best-effort decoding of function-call argument text: base64 decode, then
//! parse of the decoded bytes as a structured JSON value. Failure at either
//! step is silently swallowed and never interrupts processing.

use vstd::prelude::*;

verus! {

#[verifier::external_type_specification]
#[verifier::external_body]
pub struct ExJsonValue(serde_json::Value);

/// What base64 decoding of the standard alphabet returns on a given text:
/// the decoded bytes, or nothing where the text is not valid base64. The
/// result depends on the text alone.
pub uninterp spec fn base64_decoding(s: Seq<char>) -> Option<Seq<u8>>;

/// Whether a byte string parses as a structured JSON value; a function of
/// the bytes alone.
pub uninterp spec fn json_parses(bytes: Seq<u8>) -> bool;

/// Relies on base64::decode: decodes standard-alphabet base64 text into the
/// bytes it denotes, or fails; the result is a function of the text alone.
#[verifier::external_body]
fn base64_decode(s: &str) -> (r: Option<Vec<u8>>)
    ensures
        match r {
            Some(v) => base64_decoding(s@) == Some(v@),
            None => base64_decoding(s@) is None,
        },
{
    base64::decode(s).ok()
}

/// Relies on serde_json::from_slice::<Value>: whether the bytes parse as a
/// JSON value is a function of the bytes alone.
#[verifier::external_body]
fn json_parse(bytes: &Vec<u8>) -> (r: Option<serde_json::Value>)
    ensures
        r is Some <==> json_parses(bytes@),
{
    serde_json::from_slice::<serde_json::Value>(bytes).ok()
}

/// Whether a function call's argument text survives the whole best-effort
/// decode chain: valid base64 whose decoded bytes parse as a JSON value.
pub open spec fn spec_args_decode_ok(args: Seq<char>) -> bool {
    match base64_decoding(args) {
        Some(bytes) => json_parses(bytes),
        None => false,
    }
}

/// Best-effort decode of a function call's base64 argument text into a
/// structured JSON value. Returns nothing where either step fails.
pub fn decode_function_call_args(args: &str) -> (r: Option<serde_json::Value>)
    ensures
        r is Some <==> spec_args_decode_ok(args@),
{
    match base64_decode(args) {
        Some(bytes) => json_parse(&bytes),
        None => None,
    }
}

} // verus!
