use vstd::prelude::*;
use crate::utils::bytes::{append_bytes, copy_range};
use crate::utils::security::entropy::random_bytes;

verus! {

/// Length of the AES-256 key derived from the password.
pub const KEY_SIZE: usize = 32;

/// Length of the AES-GCM nonce that starts an encrypted key.
pub const NONCE_SIZE: usize = 12;

/// Length of the AES-GCM authentication tag that ends an encrypted key.
pub const TAG_SIZE: usize = 16;

/// Why a key could not be encrypted or decrypted.
#[derive(Debug, Clone, Copy, PartialEq, Eq, Structural)]
pub enum CipherError {
    /// The derived key is not `KEY_SIZE` bytes long.
    InvalidKeySize,
    /// The encrypted data is shorter than a nonce and a tag.
    InvalidInputSize,
}

/// What encryption starts from: a fresh random nonce and a copy of the secret key, which
/// the cipher then encrypts in place.
pub struct EncryptionInput {
    pub nonce: Vec<u8>,
    pub buffer: Vec<u8>,
}

/// The three parts of an encrypted key: `nonce || ciphertext || tag`.
pub struct EncryptedParts {
    pub nonce: Vec<u8>,
    pub ciphertext: Vec<u8>,
    pub tag: Vec<u8>,
}

/// The answer to a derived key of `key_len` bytes.
pub open spec fn key_verdict(key_len: nat) -> Result<(), CipherError> {
    if key_len == KEY_SIZE {
        Ok(())
    } else {
        Err(CipherError::InvalidKeySize)
    }
}

/// The layout of an encrypted key.
pub open spec fn framed(nonce: Seq<u8>, ciphertext: Seq<u8>, tag: Seq<u8>) -> Seq<u8> {
    nonce + ciphertext + tag
}

/// How `split_encrypted` cuts `data` when the derived key has `key_len` bytes: the key is
/// checked first, then the length; the nonce is the first `NONCE_SIZE` bytes, the tag the
/// last `TAG_SIZE` bytes, the ciphertext what lies between.
pub open spec fn split_verdict(data: Seq<u8>, key_len: nat) -> Result<
    (Seq<u8>, Seq<u8>, Seq<u8>),
    CipherError,
> {
    if key_len != KEY_SIZE {
        Err(CipherError::InvalidKeySize)
    } else if data.len() < NONCE_SIZE + TAG_SIZE {
        Err(CipherError::InvalidInputSize)
    } else {
        Ok(
            (
                data.subrange(0, NONCE_SIZE as int),
                data.subrange(NONCE_SIZE as int, data.len() - TAG_SIZE),
                data.subrange(data.len() - TAG_SIZE, data.len() as int),
            ),
        )
    }
}

/// The parts as plain sequences.
pub open spec fn parts_view(p: EncryptedParts) -> (Seq<u8>, Seq<u8>, Seq<u8>) {
    (p.nonce@, p.ciphertext@, p.tag@)
}

/// Accepts a derived key of exactly `KEY_SIZE` bytes.
pub fn check_derived_key(derived_key: &[u8]) -> (res: Result<(), CipherError>)
    ensures
        res == key_verdict(derived_key@.len()),
{
    if derived_key.len() != KEY_SIZE {
        return Err(CipherError::InvalidKeySize);
    }
    Ok(())
}

/// A fresh nonce of `NONCE_SIZE` random bytes.
pub fn random_nonce() -> (nonce: Vec<u8>)
    ensures
        nonce@.len() == NONCE_SIZE,
{
    random_bytes(NONCE_SIZE)
}

/// The first steps of `encrypt_key_with_password`: the derived key is checked, a random
/// nonce is drawn and the secret key is copied into the buffer that the cipher encrypts.
pub fn prepare_encryption(secret_key: &[u8], derived_key: &[u8]) -> (res: Result<
    EncryptionInput,
    CipherError,
>)
    ensures
        match res {
            Ok(input) => key_verdict(derived_key@.len()) is Ok && input.nonce@.len() == NONCE_SIZE
                && input.buffer@ == secret_key@,
            Err(e) => key_verdict(derived_key@.len()) == Err::<(), CipherError>(e),
        },
{
    check_derived_key(derived_key)?;
    let nonce = random_nonce();
    let buffer = copy_range(secret_key, 0, secret_key.len());
    proof {
        assert(secret_key@.subrange(0, secret_key@.len() as int) =~= secret_key@);
    }
    Ok(EncryptionInput { nonce, buffer })
}

/// The encrypted key as stored: `nonce || ciphertext || tag`.
pub fn frame_encrypted(nonce: &[u8], ciphertext: &[u8], tag: &[u8]) -> (out: Vec<u8>)
    ensures
        out@ == framed(nonce@, ciphertext@, tag@),
        out@ == nonce@ + ciphertext@ + tag@,
{
    let mut out: Vec<u8> = Vec::new();
    append_bytes(&mut out, nonce);
    append_bytes(&mut out, ciphertext);
    append_bytes(&mut out, tag);
    out
}

/// The first steps of `decrypt_key_with_password`: the derived key and the length of the
/// encrypted data are checked, in that order, and the data is cut into its three parts.
pub fn split_encrypted(encrypted_data: &[u8], derived_key: &[u8]) -> (res: Result<
    EncryptedParts,
    CipherError,
>)
    ensures
        match res {
            Ok(parts) => split_verdict(encrypted_data@, derived_key@.len()) == Ok::<
                (Seq<u8>, Seq<u8>, Seq<u8>),
                CipherError,
            >(parts_view(parts)),
            Err(e) => split_verdict(encrypted_data@, derived_key@.len()) == Err::<
                (Seq<u8>, Seq<u8>, Seq<u8>),
                CipherError,
            >(e),
        },
{
    check_derived_key(derived_key)?;
    if encrypted_data.len() < NONCE_SIZE + TAG_SIZE {
        return Err(CipherError::InvalidInputSize);
    }
    let tag_start: usize = encrypted_data.len() - TAG_SIZE;
    let nonce = copy_range(encrypted_data, 0, NONCE_SIZE);
    let ciphertext = copy_range(encrypted_data, NONCE_SIZE, tag_start);
    let tag = copy_range(encrypted_data, tag_start, encrypted_data.len());
    Ok(EncryptedParts { nonce, ciphertext, tag })
}

/// Cutting what was framed gives back the nonce, the ciphertext and the tag, for a valid
/// key, a nonce of `NONCE_SIZE` bytes and a tag of `TAG_SIZE` bytes.
pub proof fn lemma_split_undoes_frame(nonce: Seq<u8>, ciphertext: Seq<u8>, tag: Seq<u8>)
    requires
        nonce.len() == NONCE_SIZE,
        tag.len() == TAG_SIZE,
    ensures
        split_verdict(framed(nonce, ciphertext, tag), KEY_SIZE as nat) == Ok::<
            (Seq<u8>, Seq<u8>, Seq<u8>),
            CipherError,
        >((nonce, ciphertext, tag)),
{
    let d = framed(nonce, ciphertext, tag);
    assert(d.subrange(0, NONCE_SIZE as int) =~= nonce);
    assert(d.subrange(NONCE_SIZE as int, d.len() - TAG_SIZE) =~= ciphertext);
    assert(d.subrange(d.len() - TAG_SIZE, d.len() as int) =~= tag);
}

/// Framing what was cut gives back the encrypted data.
pub proof fn lemma_frame_undoes_split(data: Seq<u8>, key_len: nat)
    requires
        split_verdict(data, key_len) is Ok,
    ensures
        ({
            let (n, c, t) = split_verdict(data, key_len)->Ok_0;
            framed(n, c, t) == data
        }),
{
    let (n, c, t) = split_verdict(data, key_len)->Ok_0;
    assert(framed(n, c, t) =~= data);
}

/// An encrypted key starts with the nonce, ends with the tag, and holds the ciphertext
/// between them.
pub proof fn lemma_encrypted_layout(nonce: Seq<u8>, ciphertext: Seq<u8>, tag: Seq<u8>)
    ensures
        ({
            let d = framed(nonce, ciphertext, tag);
            &&& d.len() == nonce.len() + ciphertext.len() + tag.len()
            &&& d.subrange(0, nonce.len() as int) == nonce
            &&& d.subrange(nonce.len() as int, nonce.len() + ciphertext.len() as int) == ciphertext
            &&& d.subrange(d.len() - tag.len(), d.len() as int) == tag
        }),
{
    let d = framed(nonce, ciphertext, tag);
    assert(d.subrange(0, nonce.len() as int) =~= nonce);
    assert(d.subrange(nonce.len() as int, nonce.len() + ciphertext.len() as int) =~= ciphertext);
    assert(d.subrange(d.len() - tag.len(), d.len() as int) =~= tag);
}

/// Decryption refuses a derived key that is not 32 bytes, then data shorter than a nonce
/// and a tag; otherwise it cuts the data into a 12-byte nonce, the ciphertext and a
/// 16-byte tag that, put back in that order, are the data.
pub proof fn lemma_split_layout(data: Seq<u8>, key_len: nat)
    ensures
        key_len != 32 ==> split_verdict(data, key_len) == Err::<(Seq<u8>, Seq<u8>, Seq<u8>), CipherError>(
            CipherError::InvalidKeySize,
        ),
        key_len == 32 && data.len() < 28 ==> split_verdict(data, key_len) == Err::<
            (Seq<u8>, Seq<u8>, Seq<u8>),
            CipherError,
        >(CipherError::InvalidInputSize),
        key_len == 32 && data.len() >= 28 ==> (split_verdict(data, key_len) matches Ok(parts) && ({
            let (n, c, t) = parts;
            n.len() == 12 && t.len() == 16 && n + c + t == data
        })),
{
    if key_len == 32 && data.len() >= 28 {
        let (n, c, t) = split_verdict(data, key_len)->Ok_0;
        assert(n + c + t =~= data);
    }
}

/// The derived key must be 32 bytes long; the nonce that opens an encrypted key is 12
/// bytes long and the tag that closes it 16 bytes long.
pub proof fn lemma_key_and_frame_sizes(key_len: nat)
    ensures
        key_verdict(key_len) is Ok <==> key_len == 32,
        NONCE_SIZE == 12,
        TAG_SIZE == 16,
{
}

} // verus!
