use vstd::prelude::*;

use aes_gcm::aead::{Aead, Generate};
use aes_gcm::{Aes256Gcm, Key, KeyInit};

use crate::fs_core::FileSystemError;

verus! {

/// Exact length of an encryption key in bytes (AES-256 uses a 256-bit key).
pub const MAX_ENC_KEY_SIZE: usize = 32;

/// Length of the random nonce stored in front of every encrypted blob.
pub const NONCE_SIZE: usize = 12;

/// Length of the authentication tag the cipher appends to every ciphertext.
pub const TAG_SIZE: usize = 16;

/// Longest plaintext the cipher accepts in one call (2^36 - 32 bytes).
pub const MAX_PLAINTEXT_SIZE: u64 = 68719476704;

/// Encryption key: a byte vector, valid only at exactly `MAX_ENC_KEY_SIZE` bytes.
pub type EncKey = Vec<u8>;

/// File payloads travel as plain byte vectors.
pub type FileContent = Vec<u8>;

/// What AES-256-GCM decryption makes of a key, a nonce and a ciphertext:
/// `Some` plaintext when the tag authenticates, `None` otherwise. The result
/// depends on those three values alone.
pub uninterp spec fn aead_open_of(key: Seq<u8>, nonce: Seq<u8>, ciphertext: Seq<u8>) -> Option<
    Seq<u8>,
>;

/// Plaintext hidden in a self-describing blob (nonce followed by ciphertext),
/// or `None` when the blob is too short or fails authentication.
pub open spec fn blob_plaintext(key: Seq<u8>, blob: Seq<u8>) -> Option<Seq<u8>> {
    if blob.len() >= NONCE_SIZE {
        aead_open_of(key, blob.subrange(0, NONCE_SIZE as int), blob.subrange(NONCE_SIZE as int, blob.len() as int))
    } else {
        None
    }
}

/// Relies on `aes_gcm::Aes256Gcm` through `aead::Aead::encrypt`: sealing a
/// plaintext no longer than `P_MAX` succeeds, appends the 16-byte tag, and
/// opening the result with the same key and nonce returns the plaintext.
#[verifier::external_body]
fn aead_seal(key: &Vec<u8>, nonce: &Vec<u8>, plaintext: &Vec<u8>) -> (r: Vec<u8>)
    requires
        key@.len() == MAX_ENC_KEY_SIZE,
        nonce@.len() == NONCE_SIZE,
        plaintext@.len() <= MAX_PLAINTEXT_SIZE,
    ensures
        r@.len() == plaintext@.len() + TAG_SIZE,
        aead_open_of(key@, nonce@, r@) == Some(plaintext@),
{
    let cipher = Aes256Gcm::new(&Key::<Aes256Gcm>::try_from(key.as_slice()).unwrap());
    let nonce = aes_gcm::aead::Nonce::<Aes256Gcm>::try_from(nonce.as_slice()).unwrap();
    cipher.encrypt(&nonce, plaintext.as_slice()).unwrap()
}

/// Relies on `aes_gcm::Aes256Gcm` through `aead::Aead::decrypt`: opening
/// returns the plaintext exactly when the tag authenticates under this key
/// and nonce, and rejects the ciphertext otherwise.
#[verifier::external_body]
fn aead_open(key: &Vec<u8>, nonce: &Vec<u8>, ciphertext: &Vec<u8>) -> (r: Option<Vec<u8>>)
    requires
        key@.len() == MAX_ENC_KEY_SIZE,
        nonce@.len() == NONCE_SIZE,
    ensures
        match r {
            Some(p) => aead_open_of(key@, nonce@, ciphertext@) == Some(p@),
            None => aead_open_of(key@, nonce@, ciphertext@) is None,
        },
{
    let cipher = Aes256Gcm::new(&Key::<Aes256Gcm>::try_from(key.as_slice()).unwrap());
    let nonce = aes_gcm::aead::Nonce::<Aes256Gcm>::try_from(nonce.as_slice()).unwrap();
    cipher.decrypt(&nonce, ciphertext.as_slice()).ok()
}

/// Relies on `crypto_common::Generate` for `[u8; 12]` (the system's
/// cryptographic random source) to draw a fresh nonce; nothing is promised of
/// the value beyond its length.
#[verifier::external_body]
fn fresh_nonce() -> (r: Vec<u8>)
    ensures
        r@.len() == NONCE_SIZE,
{
    let nonce: [u8; 12] = Generate::generate();
    nonce.to_vec()
}

/// Relies on `crypto_common::Generate` for `[u8; 32]` (the system's
/// cryptographic random source) to draw key material; nothing is promised of
/// the value beyond its length.
#[verifier::external_body]
fn fresh_key_bytes() -> (r: Vec<u8>)
    ensures
        r@.len() == MAX_ENC_KEY_SIZE,
{
    let key: [u8; 32] = Generate::generate();
    key.to_vec()
}

/// Authenticated symmetric encryption of byte payloads under one stored key.
#[derive(Clone, PartialEq, Eq)]
pub struct EncUtils {
    pub key: EncKey,
}

impl Default for EncUtils {
    /// An engine under a freshly drawn random key.
    fn default() -> (r: Self)
        ensures
            r.wf(),
    {
        EncUtils { key: fresh_key_bytes() }
    }
}

impl EncUtils {
    /// The stored key has the exact required length.
    pub open spec fn wf(self) -> bool {
        self.key@.len() == MAX_ENC_KEY_SIZE
    }

    /// Accepts exactly the required key length; every other length is rejected.
    pub fn is_valid_key(key: &EncKey) -> (r: Result<(), FileSystemError>)
        ensures
            r is Ok <==> key@.len() == MAX_ENC_KEY_SIZE,
            r is Err ==> r == Err::<(), FileSystemError>(FileSystemError::InvalidKeySize),
    {
        if key.len() == 0 {
            return Err(FileSystemError::InvalidKeySize);
        }
        if key.len() > MAX_ENC_KEY_SIZE {
            return Err(FileSystemError::InvalidKeySize);
        }
        if key.len() < MAX_ENC_KEY_SIZE {
            return Err(FileSystemError::InvalidKeySize);
        }
        Ok(())
    }

    /// Builds an engine from a key of the exact required length.
    pub fn new(key: EncKey) -> (r: Result<EncUtils, FileSystemError>)
        ensures
            r is Ok <==> key@.len() == MAX_ENC_KEY_SIZE,
            r matches Ok(e) ==> e.key@ == key@ && e.wf(),
            r is Err ==> r == Err::<EncUtils, FileSystemError>(FileSystemError::InvalidKeySize),
    {
        match Self::is_valid_key(&key) {
            Ok(()) => Ok(EncUtils { key }),
            Err(e) => Err(e),
        }
    }

    /// The current key.
    pub fn get_key(&self) -> (r: &EncKey)
        ensures
            r@ == self.key@,
    {
        &self.key
    }

    /// Replaces the key when the new one has the exact required length;
    /// otherwise the old key stays and the call fails.
    pub fn set_key(&mut self, key: EncKey) -> (r: Result<(), FileSystemError>)
        ensures
            key@.len() == MAX_ENC_KEY_SIZE ==> r is Ok && final(self).key@ == key@,
            key@.len() != MAX_ENC_KEY_SIZE ==> r == Err::<(), FileSystemError>(
                FileSystemError::InvalidKeySize,
            ) && *final(self) == *old(self),
    {
        match Self::is_valid_key(&key) {
            Ok(()) => {
                self.key = key;
                Ok(())
            },
            Err(e) => Err(e),
        }
    }

    /// Seals a payload under a fresh random nonce and prepends the nonce, so
    /// the blob is self-describing: decrypting it under the same key gives the
    /// payload back.
    pub fn encrypt(&self, content: FileContent) -> (r: Result<FileContent, FileSystemError>)
        requires
            self.wf(),
            content@.len() <= MAX_PLAINTEXT_SIZE,
        ensures
            r matches Ok(c) && c@.len() == content@.len() + (NONCE_SIZE + TAG_SIZE)
                && blob_plaintext(self.key@, c@) == Some(content@),
    {
        let nonce = fresh_nonce();
        let mut ciphertext = aead_seal(&self.key, &nonce, &content);
        let mut blob = nonce;
        let ghost nonce_seq = blob@;
        let ghost ct_seq = ciphertext@;
        blob.append(&mut ciphertext);
        proof {
            assert(blob@.subrange(0, NONCE_SIZE as int) =~= nonce_seq);
            assert(blob@.subrange(NONCE_SIZE as int, blob@.len() as int) =~= ct_seq);
        }
        Ok(blob)
    }

    /// Splits the leading nonce off a blob and opens the remainder: too-short
    /// blobs are truncated, authentication failure is reported and never
    /// flattened into an empty payload.
    pub fn decrypt(&self, content: FileContent) -> (r: Result<FileContent, FileSystemError>)
        requires
            self.wf(),
        ensures
            match r {
                Ok(p) => content@.len() >= NONCE_SIZE && blob_plaintext(self.key@, content@)
                    == Some(p@),
                Err(e) => (e == FileSystemError::TruncatedCiphertext && content@.len() < NONCE_SIZE)
                    || (e == FileSystemError::AuthenticationFailed && content@.len() >= NONCE_SIZE
                    && blob_plaintext(self.key@, content@) is None),
            },
    {
        if content.len() < NONCE_SIZE {
            return Err(FileSystemError::TruncatedCiphertext);
        }
        let nonce = vstd::slice::slice_to_vec(
            vstd::slice::slice_subrange(content.as_slice(), 0, NONCE_SIZE),
        );
        let ciphertext = vstd::slice::slice_to_vec(
            vstd::slice::slice_subrange(content.as_slice(), NONCE_SIZE, content.len()),
        );
        match aead_open(&self.key, &nonce, &ciphertext) {
            Some(p) => Ok(p),
            None => Err(FileSystemError::AuthenticationFailed),
        }
    }

    /// Draws a random key of the exact required length.
    pub fn generate_random_key() -> (r: EncKey)
        ensures
            r@.len() == MAX_ENC_KEY_SIZE,
    {
        fresh_key_bytes()
    }
}

} // verus!
