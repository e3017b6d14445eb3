//! Signed-request headers for relayer calls.
//!
//! A request is authenticated by two header values: an expiration timestamp
//! (now plus a fixed buffer, in milliseconds) and a detached ECDSA signature,
//! encoded in standard base64 without padding, over the request body followed
//! by the little-endian eight-byte encoding of the expiration. A GET request
//! signs an empty body.

use vstd::prelude::*;

verus! {

/// How long a request signature is declared valid for, in milliseconds.
pub const SIG_EXPIRATION_BUFFER_MS: u64 = 5000;

/// The ECDSA (secp256k1) signature over `msg` by the key with scalar bytes
/// `key`: sixty-four bytes, `r` then `s`. The RFC 6979 nonce makes it a
/// function of the key and message alone.
pub uninterp spec fn ecdsa_sig_of(key: Seq<u8>, msg: Seq<u8>) -> Seq<u8>;

/// Whether a byte string forms a valid ECDSA (secp256k1) signing key: at
/// most thirty-two bytes that read, zero-padded, as a non-zero scalar below
/// the curve order. A property of the bytes alone.
pub uninterp spec fn ecdsa_key_ok(key: Seq<u8>) -> bool;

/// The standard-alphabet, unpadded base64 encoding of `bytes`.
pub uninterp spec fn b64_nopad_of(bytes: Seq<u8>) -> Seq<char>;

/// The bytes a request signature covers: the body followed by the
/// little-endian eight-byte encoding of the expiration timestamp.
pub open spec fn auth_payload(body: Seq<u8>, expiration_ms: u64) -> Seq<u8> {
    body + vstd::bytes::spec_u64_to_le_bytes(expiration_ms)
}

/// The encoded signature header value for a body signed by `key` with the
/// given expiration.
pub open spec fn auth_signature_of(key: Seq<u8>, body: Seq<u8>, expiration_ms: u64) -> Seq<char> {
    b64_nopad_of(ecdsa_sig_of(key, auth_payload(body, expiration_ms)))
}

/// Relies on `k256::ecdsa::SigningKey::from_slice` and the `Signer`
/// implementation on `k256::ecdsa::SigningKey`: signing uses the
/// deterministic RFC 6979 nonce, so the sixty-four-byte `r || s` signature
/// is a function of the key bytes and the message alone. `from_slice`
/// accepts exactly the byte strings that read as a valid non-zero scalar
/// (a slice shorter than thirty-two bytes is zero-padded first), and for a
/// valid key RFC 6979 always yields a usable nonce, so signing succeeds
/// exactly on valid key bytes.
#[verifier::external_body]
fn ecdsa_sign(key_bytes: &Vec<u8>, msg: &Vec<u8>) -> (sig: Option<Vec<u8>>)
    ensures
        sig is Some <==> ecdsa_key_ok(key_bytes@),
        sig matches Some(s) ==> s@ == ecdsa_sig_of(key_bytes@, msg@),
        sig matches Some(s) ==> s@.len() == 64,
{
    let key = match k256::ecdsa::SigningKey::from_slice(key_bytes.as_slice()) {
        Ok(key) => key,
        Err(_) => return None,
    };
    let signature: k256::ecdsa::Signature =
        match k256::ecdsa::signature::Signer::try_sign(&key, msg.as_slice()) {
            Ok(signature) => signature,
            Err(_) => return None,
        };
    Some(signature.to_bytes().to_vec())
}

/// Relies on `base64::Engine::encode` with the `STANDARD_NO_PAD` engine:
/// four characters for every three bytes, with a two- or three-character
/// final group and no padding.
#[verifier::external_body]
fn b64_encode_nopad(bytes: &Vec<u8>) -> (out: String)
    requires
        bytes@.len() <= usize::MAX / 4,
    ensures
        out@ == b64_nopad_of(bytes@),
        out@.len() == (bytes@.len() * 4 + 2) / 3,
{
    base64::Engine::encode(&base64::engine::general_purpose::STANDARD_NO_PAD, bytes.as_slice())
}

/// The two header values that authenticate one relayer request.
#[derive(Clone, Debug, PartialEq, Eq)]
pub struct AuthHeaders {
    /// The timestamp (milliseconds) the signature expires at.
    pub expiration_ms: u64,
    /// The base64-encoded signature over the body and the expiration.
    pub signature_b64: String,
}

/// Why signing a request failed.
#[derive(Clone, Debug, PartialEq, Eq)]
pub enum AuthError {
    /// The configured root key bytes are not a valid signing key. Fatal for
    /// the request: retrying cannot help without fixing the configuration.
    InvalidKey,
}

/// Build the authentication headers for one request: the expiration is
/// `now_ms` plus the fixed buffer, and the signature covers the body
/// followed by the little-endian encoding of that expiration. Signing
/// succeeds exactly when the root key is a valid signing key; the failure
/// is fatal for the request and retrying cannot help without fixing the
/// configuration.
pub fn sign_request(root_key: &Vec<u8>, body: &Vec<u8>, now_ms: u64) -> (result: Result<
    AuthHeaders,
    AuthError,
>)
    requires
        now_ms + SIG_EXPIRATION_BUFFER_MS <= u64::MAX,
        body@.len() + 8 <= usize::MAX,
    ensures
        result is Ok <==> ecdsa_key_ok(root_key@),
        result matches Ok(headers) ==> {
            &&& headers.expiration_ms == now_ms + SIG_EXPIRATION_BUFFER_MS
            &&& headers.signature_b64@ == auth_signature_of(
                root_key@,
                body@,
                headers.expiration_ms,
            )
        },
        result matches Err(e) ==> e == AuthError::InvalidKey,
{
    let expiration_ms: u64 = now_ms + SIG_EXPIRATION_BUFFER_MS;
    let mut payload: Vec<u8> = crate::notes::copy_bytes(body);
    let mut tail: Vec<u8> = vstd::bytes::u64_to_le_bytes(expiration_ms);
    payload.append(&mut tail);
    match ecdsa_sign(root_key, &payload) {
        Option::Some(sig) => {
            let signature_b64 = b64_encode_nopad(&sig);
            Result::Ok(AuthHeaders { expiration_ms, signature_b64 })
        },
        Option::None => Result::Err(AuthError::InvalidKey),
    }
}

/// Law: signing is deterministic. Two header pairs built from the same root
/// key, body and expiration are identical.
pub proof fn lemma_sign_deterministic(
    key: Seq<u8>,
    body: Seq<u8>,
    expiration_ms: u64,
    h1: AuthHeaders,
    h2: AuthHeaders,
)
    requires
        h1.expiration_ms == expiration_ms,
        h2.expiration_ms == expiration_ms,
        h1.signature_b64@ == auth_signature_of(key, body, expiration_ms),
        h2.signature_b64@ == auth_signature_of(key, body, expiration_ms),
    ensures
        h1.expiration_ms == h2.expiration_ms,
        h1.signature_b64@ == h2.signature_b64@,
{
}

} // verus!
