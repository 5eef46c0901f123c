//! The crypto engine: authenticated symmetric encryption (AES-256-GCM) and a
//! one-way content fingerprint (SHA-512), both performed by outside crates
//! behind trusted wrappers. Key material lives in a write-only container with
//! no read accessor, so it cannot end up in logs or serialized output.

use vstd::prelude::*;
use aes_gcm::aead::Aead;
use aes_gcm::AeadCore;
use aes_gcm::KeyInit;
use rand::RngCore;
use sha2::Digest;

verus! {

/// Symmetric key material (the master key or a merchant DEK). Write-only:
/// the bytes can only be used for encryption and decryption through this
/// module; no accessor exposes them.
pub struct KeyMaterial {
    bytes: Vec<u8>,
}

impl View for KeyMaterial {
    type V = Seq<u8>;

    closed spec fn view(&self) -> Seq<u8> {
        self.bytes@
    }
}

impl KeyMaterial {
    pub fn new(bytes: Vec<u8>) -> (r: KeyMaterial)
        ensures
            r@ == bytes@,
    {
        KeyMaterial { bytes }
    }
}

/// The SHA-512 digest of a byte sequence: a function of the bytes alone.
pub uninterp spec fn digest_of(data: Seq<u8>) -> Seq<u8>;

/// What authenticated decryption under `key` makes of `sealed`: the plaintext
/// if `sealed` was produced by encryption under `key`, `None` on a wrong key
/// or tampered bytes. A function of key and ciphertext alone.
pub uninterp spec fn decryption_of(key: Seq<u8>, sealed: Seq<u8>) -> Option<Seq<u8>>;

/// Relies on sha2::Sha512: the digest depends on the input bytes alone and is
/// always 64 bytes long.
#[verifier::external_body]
fn sha512(data: &[u8]) -> (r: Vec<u8>)
    ensures
        r@ == digest_of(data@),
        r@.len() == 64,
{
    sha2::Sha512::digest(data).to_vec()
}

/// Content fingerprint for deduplication: deterministic and one-way over the
/// canonical payload bytes.
pub fn fingerprint(data: &[u8]) -> (r: Vec<u8>)
    ensures
        r@ == digest_of(data@),
        r@.len() == 64,
{
    sha512(data)
}

/// Relies on aes_gcm::Aes256Gcm (through aead::Aead::encrypt): the result is
/// a fresh 12-byte nonce followed by the ciphertext and its 16-byte tag, and
/// decrypting it under the same key yields the plaintext again. Encryption
/// only fails beyond the AES-GCM length limit (2^36 bytes), which the
/// precondition rules out.
#[verifier::external_body]
pub(crate) fn encrypt(key: &KeyMaterial, plaintext: &[u8]) -> (r: Vec<u8>)
    requires
        key@.len() == 32,
        plaintext@.len() <= 0xFFFF_FFFF,
    ensures
        r@.len() == plaintext@.len() + 28,
        decryption_of(key@, r@) == Some(plaintext@),
{
    let cipher = aes_gcm::Aes256Gcm::new(aes_gcm::Key::<aes_gcm::Aes256Gcm>::from_slice(&key.bytes));
    let nonce = aes_gcm::Aes256Gcm::generate_nonce(aes_gcm::aead::OsRng);
    let sealed = cipher
        .encrypt(&nonce, plaintext)
        .expect("plaintext is within the AES-GCM length limit");
    let mut out = nonce.to_vec();
    out.extend_from_slice(&sealed);
    out
}

/// Relies on aes_gcm::Aes256Gcm (through aead::Aead::decrypt): authenticated
/// decryption of a nonce-prefixed ciphertext. Deterministic in key and bytes;
/// a wrong key or tampered bytes give `None`, never malformed plaintext.
#[verifier::external_body]
pub(crate) fn decrypt(key: &KeyMaterial, sealed: &[u8]) -> (r: Option<Vec<u8>>)
    requires
        key@.len() == 32,
        sealed@.len() >= 12,
    ensures
        match r {
            Some(p) => decryption_of(key@, sealed@) == Some(p@),
            None => decryption_of(key@, sealed@) is None,
        },
{
    let cipher = aes_gcm::Aes256Gcm::new(aes_gcm::Key::<aes_gcm::Aes256Gcm>::from_slice(&key.bytes));
    let (nonce, body) = sealed.split_at(12);
    cipher.decrypt(aes_gcm::Nonce::from_slice(nonce), body).ok()
}

/// Relies on rand::rngs::ThreadRng (through rand::RngCore::fill_bytes): fills
/// the buffer with random bytes. Nothing is assumed of the values; only the
/// length is stated.
#[verifier::external_body]
pub(crate) fn generate_key_bytes() -> (r: Vec<u8>)
    ensures
        r@.len() == 32,
{
    let mut bytes = vec![0u8; 32];
    rand::thread_rng().fill_bytes(&mut bytes);
    bytes
}

/// Relies on str's PartialEq: two string slices are equal exactly when their
/// character sequences are.
#[verifier::external_body]
pub(crate) fn str_eq(a: &str, b: &str) -> (r: bool)
    ensures
        r == (a@ == b@),
{
    a == b
}

} // verus!
