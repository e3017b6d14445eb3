use fee_sweeper::auth::{sign_request, AuthError, SIG_EXPIRATION_BUFFER_MS};
use k256::ecdsa::signature::Verifier;

fn test_key() -> Vec<u8> {
    // Any non-zero scalar below the curve order is a valid signing key.
    let mut key = vec![0u8; 32];
    key[31] = 7;
    key
}

#[test]
fn sign_is_deterministic() {
    let key = test_key();
    let body = b"{\"wallet_id\":\"abc\"}".to_vec();
    let now_ms: u64 = 1_700_000_000_000;
    let h1 = sign_request(&key, &body, now_ms).unwrap();
    let h2 = sign_request(&key, &body, now_ms).unwrap();
    assert_eq!(h1.expiration_ms, h2.expiration_ms);
    assert_eq!(h1.signature_b64, h2.signature_b64);
}

#[test]
fn expiration_is_now_plus_buffer() {
    let key = test_key();
    let now_ms: u64 = 123_456;
    let headers = sign_request(&key, &Vec::new(), now_ms).unwrap();
    assert_eq!(headers.expiration_ms, now_ms + SIG_EXPIRATION_BUFFER_MS);
    assert_eq!(headers.expiration_ms, now_ms + 5000);
}

#[test]
fn signature_verifies_over_body_and_expiration() {
    let key = test_key();
    let body = b"hello relayer".to_vec();
    let now_ms: u64 = 1_700_000_000_000;
    let headers = sign_request(&key, &body, now_ms).unwrap();

    // Reconstruct the signed payload: body then the little-endian expiration.
    let mut payload = body.clone();
    payload.extend_from_slice(&headers.expiration_ms.to_le_bytes());

    let sig_bytes = base64::Engine::decode(
        &base64::engine::general_purpose::STANDARD_NO_PAD,
        headers.signature_b64.as_bytes(),
    )
    .unwrap();
    assert_eq!(sig_bytes.len(), 64);
    let signature = k256::ecdsa::Signature::from_slice(&sig_bytes).unwrap();
    let signing_key = k256::ecdsa::SigningKey::from_slice(&key).unwrap();
    let verifying_key = signing_key.verifying_key();
    assert!(verifying_key.verify(&payload, &signature).is_ok());
    // The signature must not verify against a different body.
    assert!(verifying_key.verify(b"other body", &signature).is_err());
}

#[test]
fn different_bodies_give_different_signatures() {
    let key = test_key();
    let now_ms: u64 = 1_000;
    let h1 = sign_request(&key, &b"a".to_vec(), now_ms).unwrap();
    let h2 = sign_request(&key, &b"b".to_vec(), now_ms).unwrap();
    assert_ne!(h1.signature_b64, h2.signature_b64);
}

#[test]
fn invalid_keys_are_rejected() {
    let now_ms: u64 = 1_000;
    // The zero scalar is not a valid key.
    assert_eq!(sign_request(&vec![0u8; 32], &Vec::new(), now_ms), Err(AuthError::InvalidKey));
    // Nor is a key of the wrong length.
    assert_eq!(sign_request(&vec![7u8; 3], &Vec::new(), now_ms), Err(AuthError::InvalidKey));
}
