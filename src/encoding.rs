//! Base64 (standard alphabet, padded) and base58 (Bitcoin alphabet) text.

use vstd::prelude::*;

verus! {

/// The standard base64 text of `bytes`, as base64's STANDARD engine writes it.
pub uninterp spec fn base64_text(bytes: Seq<u8>) -> Seq<char>;

/// What base64's STANDARD engine decodes `text` to, if it accepts it.
pub uninterp spec fn base64_bytes(text: Seq<char>) -> Option<Seq<u8>>;

/// The base58 text of `bytes`, as bs58 writes it.
pub uninterp spec fn base58_text(bytes: Seq<u8>) -> Seq<char>;

/// What bs58 decodes `text` to, if it accepts it.
pub uninterp spec fn base58_bytes(text: Seq<char>) -> Option<Seq<u8>>;

/// A character of the standard base64 alphabet, or the padding `=`.
pub open spec fn is_base64_char(c: char) -> bool {
    ('A' <= c && c <= 'Z') || ('a' <= c && c <= 'z') || ('0' <= c && c <= '9') || c == '+' || c == '/'
        || c == '='
}

/// A character of the Bitcoin base58 alphabet.
pub open spec fn is_base58_char(c: char) -> bool {
    ('1' <= c && c <= '9') || ('A' <= c && c <= 'H') || ('J' <= c && c <= 'N') || ('P' <= c && c <= 'Z')
        || ('a' <= c && c <= 'k') || ('m' <= c && c <= 'z')
}

/// base64's `DecodeError`, carried opaquely to its message.
#[verifier::external_type_specification]
#[verifier::external_body]
pub struct ExBase64DecodeError(base64::DecodeError);

/// bs58's decode `Error`, carried opaquely to its message.
#[verifier::external_type_specification]
#[verifier::external_body]
pub struct ExBase58DecodeError(bs58::decode::Error);

/// Relies on base64's `Engine::encode` with the STANDARD engine: text in the
/// standard alphabet with `=` padding, which the same engine decodes back to
/// `bytes`.
#[verifier::external_body]
pub(crate) fn encode_base64(bytes: &[u8]) -> (text: String)
    ensures
        text@ == base64_text(bytes@),
        base64_bytes(text@) == Some(bytes@),
        forall|i: int| 0 <= i < text@.len() ==> is_base64_char(#[trigger] text@[i]),
{
    base64::Engine::encode(&base64::engine::general_purpose::STANDARD, bytes)
}

/// Relies on base64's `Engine::decode` with the STANDARD engine.
#[verifier::external_body]
pub(crate) fn decode_base64(text: &str) -> (r: Result<Vec<u8>, base64::DecodeError>)
    ensures
        match r {
            Ok(bytes) => base64_bytes(text@) == Some(bytes@),
            Err(_) => base64_bytes(text@) is None,
        },
{
    base64::Engine::decode(&base64::engine::general_purpose::STANDARD, text)
}

/// Relies on the `Display` of base64's `DecodeError`, which names the offending
/// position or length, never the decoded bytes.
#[verifier::external_body]
pub(crate) fn base64_error_message(e: &base64::DecodeError) -> String {
    e.to_string()
}

/// Relies on bs58's `encode(..).into_string()`: text in the Bitcoin
/// alphabet, which bs58's `decode(..).into_vec()` turns back into `bytes`.
#[verifier::external_body]
pub(crate) fn encode_base58(bytes: &[u8]) -> (text: String)
    ensures
        text@ == base58_text(bytes@),
        base58_bytes(text@) == Some(bytes@),
        forall|i: int| 0 <= i < text@.len() ==> is_base58_char(#[trigger] text@[i]),
{
    bs58::encode(bytes).into_string()
}

/// Relies on bs58's `decode(..).into_vec()`.
#[verifier::external_body]
pub(crate) fn decode_base58(text: &str) -> (r: Result<Vec<u8>, bs58::decode::Error>)
    ensures
        match r {
            Ok(bytes) => base58_bytes(text@) == Some(bytes@),
            Err(_) => base58_bytes(text@) is None,
        },
{
    bs58::decode(text).into_vec()
}

/// Relies on the `Display` of bs58's decode `Error`, which names the offending
/// character or size, never the decoded bytes.
#[verifier::external_body]
pub(crate) fn base58_error_message(e: &bs58::decode::Error) -> String {
    e.to_string()
}

} // verus!
