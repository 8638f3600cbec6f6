//! Turning a fetched icon into an embeddable payload.
use vstd::prelude::*;
use crate::cache::value_view;

verus! {

/// The padded standard-alphabet base64 text of `bytes`.
pub uninterp spec fn base64_of(bytes: Seq<u8>) -> Seq<char>;

/// Relies on `base64::Engine::encode` with the `STANDARD` engine: the
/// encoding depends on the bytes alone, and no bytes give no text.
#[verifier::external_body]
fn encode_base64(bytes: &[u8]) -> (r: String)
    ensures
        r@ == base64_of(bytes@),
        bytes@.len() == 0 ==> r@.len() == 0,
{
    base64::Engine::encode(&base64::engine::general_purpose::STANDARD, bytes)
}

/// The content type taken where a response declares none.
pub const DEFAULT_CONTENT_TYPE: &'static str = "image/png";

/// The data URI that embeds `body` with content type `mime`.
pub open spec fn payload_text(mime: Seq<char>, body: Seq<u8>) -> Seq<char> {
    "data:"@ + mime + ";base64,"@ + base64_of(body)
}

/// The content type of a response: the declared one, else the default.
pub open spec fn content_type_or_default(declared: Option<Seq<char>>) -> Seq<char> {
    match declared {
        Some(c) => c,
        None => DEFAULT_CONTENT_TYPE@,
    }
}

/// Encodes an icon body and its content type into one data URI.
pub fn icon_payload(content_type: Option<String>, body: &[u8]) -> (r: String)
    ensures
        r@ == payload_text(content_type_or_default(value_view(content_type)), body@),
{
    let mime = match content_type {
        Some(c) => c,
        None => String::from_str(DEFAULT_CONTENT_TYPE),
    };
    let encoded = encode_base64(body);
    let mut r = String::from_str("data:");
    r.append(mime.as_str());
    r.append(";base64,");
    r.append(encoded.as_str());
    r
}

/// Why a fetch gave no icon.
#[derive(Clone, Debug, PartialEq, Eq)]
pub enum FetchError {
    /// The server answered with a status outside `200..=299`.
    Status(u16),
    /// The request failed before a response came; the transport's message.
    Transport(String),
}

/// The outcome of an icon request that got a response: the payload for a
/// success status, else the status as the error.
pub fn response_payload(status: u16, content_type: Option<String>, body: &[u8]) -> (r: Result<String, FetchError>)
    ensures
        200 <= status <= 299 ==> (r matches Ok(p) && p@ == payload_text(
            content_type_or_default(value_view(content_type)),
            body@,
        )),
        !(200 <= status <= 299) ==> r == Err::<String, FetchError>(FetchError::Status(status)),
{
    if 200 <= status && status <= 299 {
        Ok(icon_payload(content_type, body))
    } else {
        Err(FetchError::Status(status))
    }
}

} // verus!
