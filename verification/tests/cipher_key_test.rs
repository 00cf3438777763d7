use zenth_utils::utils::security::cipher_key::{
    check_derived_key, frame_encrypted, prepare_encryption, random_nonce, split_encrypted,
    CipherError, NONCE_SIZE, TAG_SIZE,
};

#[test]
fn derived_key_must_be_32_bytes() {
    assert_eq!(check_derived_key(&[0u8; 32]), Ok(()));
    assert_eq!(check_derived_key(&[0u8; 31]), Err(CipherError::InvalidKeySize));
    assert_eq!(check_derived_key(&[]), Err(CipherError::InvalidKeySize));
}

#[test]
fn prepare_encryption_copies_secret_and_draws_nonce() {
    let input = prepare_encryption(b"secret", &[7u8; 32]).ok().unwrap();
    assert_eq!(input.buffer, b"secret".to_vec());
    assert_eq!(input.nonce.len(), NONCE_SIZE);
    assert!(matches!(
        prepare_encryption(b"secret", &[7u8; 16]),
        Err(CipherError::InvalidKeySize)
    ));
}

#[test]
fn nonces_are_random() {
    let a = random_nonce();
    let b = random_nonce();
    assert_eq!(a.len(), 12);
    assert_ne!(a, b);
}

#[test]
fn frame_then_split_round_trip() {
    let nonce = [1u8; 12];
    let tag = [2u8; 16];
    let framed = frame_encrypted(&nonce, b"cipher", &tag);
    assert_eq!(framed.len(), 12 + 6 + 16);
    let parts = split_encrypted(&framed, &[0u8; 32]).ok().unwrap();
    assert_eq!(parts.nonce, nonce.to_vec());
    assert_eq!(parts.ciphertext, b"cipher".to_vec());
    assert_eq!(parts.tag, tag.to_vec());
}

#[test]
fn split_checks_key_then_length() {
    let short = [0u8; NONCE_SIZE + TAG_SIZE - 1];
    assert!(matches!(split_encrypted(&short, &[0u8; 3]), Err(CipherError::InvalidKeySize)));
    assert!(matches!(split_encrypted(&short, &[0u8; 32]), Err(CipherError::InvalidInputSize)));
    let exact = [9u8; NONCE_SIZE + TAG_SIZE];
    let parts = split_encrypted(&exact, &[0u8; 32]).ok().unwrap();
    assert!(parts.ciphertext.is_empty());
}
