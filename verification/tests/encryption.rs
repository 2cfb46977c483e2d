use mc_protocol::auth::mojang::{AuthError, ValidationError};
use mc_protocol::encryption::{enable_encryption, encryption_from_response, encryption_from_secret};

#[test]
fn streams_need_a_sixteen_byte_secret() {
    assert!(encryption_from_secret(&[7u8; 16]).is_some());
    assert!(encryption_from_secret(&[7u8; 15]).is_none());
    assert!(encryption_from_secret(&[]).is_none());
    assert!(matches!(
        enable_encryption(&[1u8; 17]),
        Err(AuthError::ValidationError(ValidationError::InvalidSharedSecret))
    ));
    assert!(enable_encryption(&[1u8; 16]).is_ok());
}

#[test]
fn decrypting_what_was_encrypted_gives_it_back_across_runs() {
    let secret: Vec<u8> = (0..16).collect();
    let (mut enc, mut dec) = encryption_from_secret(&secret).unwrap();
    let mut first = b"hello, ".to_vec();
    let mut second = b"world".to_vec();
    enc.apply(&mut first);
    enc.apply(&mut second);
    assert_ne!(first, b"hello, ".to_vec());

    let (mut enc2, _) = encryption_from_secret(&secret).unwrap();
    let mut whole = b"hello, world".to_vec();
    enc2.apply(&mut whole);
    let mut joined = first.clone();
    joined.extend_from_slice(&second);
    assert_eq!(whole, joined);

    dec.apply(&mut first);
    dec.apply(&mut second);
    assert_eq!(first, b"hello, ".to_vec());
    assert_eq!(second, b"world".to_vec());
}

#[test]
fn streams_need_the_verify_token_echoed() {
    assert!(matches!(
        encryption_from_response(&[1, 2, 3, 4], &[7u8; 16], &[1, 2, 3, 5]),
        Err(AuthError::ValidationError(ValidationError::VerifyMismatch))
    ));
    assert!(matches!(
        encryption_from_response(&[1, 2, 3, 4], &[7u8; 3], &[1, 2, 3, 4]),
        Err(AuthError::ValidationError(ValidationError::InvalidSharedSecret))
    ));
    assert!(encryption_from_response(&[1, 2, 3, 4], &[7u8; 16], &[1, 2, 3, 4]).is_ok());
}
