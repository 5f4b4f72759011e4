use vstd::prelude::*;
use core::marker::PhantomData;
use chacha20poly1305::aead::{Aead, AeadCore, KeyInit, OsRng};
use crate::error::CtbError;

verus! {

/// Length in bytes of the Poly1305 tag that every sealed message ends with.
pub const TAG_SIZE: usize = 16;

/// Plaintexts shorter than this many bytes (64-byte blocks, fewer than
/// `u32::MAX` of them) are sealed; longer ones are refused.
pub const MAX_PLAINTEXT_LEN: u64 = 274877906880u64;

#[verifier::external_type_specification]
#[verifier::external_body]
pub struct ExAeadError(chacha20poly1305::aead::Error);

/// ChaCha20-Poly1305 (96-bit nonce) applied to a plaintext.
pub uninterp spec fn chacha20poly1305_seal(key: Seq<u8>, nonce: Seq<u8>, plain: Seq<u8>) -> Seq<u8>;

/// ChaCha20-Poly1305 opening of a sealed message: `None` where the tag does not verify.
pub uninterp spec fn chacha20poly1305_open(key: Seq<u8>, nonce: Seq<u8>, sealed: Seq<u8>) -> Option<Seq<u8>>;

/// XChaCha20-Poly1305 (192-bit nonce) applied to a plaintext.
pub uninterp spec fn xchacha20poly1305_seal(key: Seq<u8>, nonce: Seq<u8>, plain: Seq<u8>) -> Seq<u8>;

/// XChaCha20-Poly1305 opening of a sealed message: `None` where the tag does not verify.
pub uninterp spec fn xchacha20poly1305_open(key: Seq<u8>, nonce: Seq<u8>, sealed: Seq<u8>) -> Option<Seq<u8>>;

/// Calls `Aead::encrypt` of `chacha20poly1305::ChaCha20Poly1305`. Trusted:
/// it fails exactly on plaintexts of `MAX_PLAINTEXT_LEN` bytes or more;
/// otherwise it returns the keystream-masked plaintext followed by a 16-byte
/// tag, and opening that with the same key and nonce gives the plaintext back
/// (same keystream, same MAC over the same bytes).
#[verifier::external_body]
fn chacha20poly1305_encrypt(key: &[u8], nonce: &[u8], plain: &[u8]) -> (r: Result<Vec<u8>, chacha20poly1305::aead::Error>)
    requires
        key@.len() == 32,
        nonce@.len() == 12,
    ensures
        r is Ok <==> plain@.len() < MAX_PLAINTEXT_LEN,
        r matches Ok(c) ==> {
            &&& c@ == chacha20poly1305_seal(key@, nonce@, plain@)
            &&& c@.len() == plain@.len() + TAG_SIZE
            &&& chacha20poly1305_open(key@, nonce@, c@) == Some(plain@)
        },
{
    let cipher = chacha20poly1305::ChaCha20Poly1305::new(chacha20poly1305::Key::from_slice(key));
    cipher.encrypt(chacha20poly1305::Nonce::from_slice(nonce), plain)
}

/// Calls `Aead::decrypt` of `chacha20poly1305::ChaCha20Poly1305`. Trusted:
/// it succeeds exactly where the opening is defined, returns it, and it is
/// 16 bytes shorter than the input; inputs shorter than a tag never open.
#[verifier::external_body]
fn chacha20poly1305_decrypt(key: &[u8], nonce: &[u8], sealed: &[u8]) -> (r: Result<Vec<u8>, chacha20poly1305::aead::Error>)
    requires
        key@.len() == 32,
        nonce@.len() == 12,
    ensures
        r is Ok <==> chacha20poly1305_open(key@, nonce@, sealed@) is Some,
        r matches Ok(p) ==> chacha20poly1305_open(key@, nonce@, sealed@) == Some(p@)
            && p@.len() + TAG_SIZE == sealed@.len(),
        sealed@.len() < TAG_SIZE ==> r is Err,
{
    let cipher = chacha20poly1305::ChaCha20Poly1305::new(chacha20poly1305::Key::from_slice(key));
    cipher.decrypt(chacha20poly1305::Nonce::from_slice(nonce), sealed)
}

/// Calls `Aead::encrypt` of `chacha20poly1305::XChaCha20Poly1305`. Trusted
/// as `chacha20poly1305_encrypt`, with a 24-byte nonce.
#[verifier::external_body]
fn xchacha20poly1305_encrypt(key: &[u8], nonce: &[u8], plain: &[u8]) -> (r: Result<Vec<u8>, chacha20poly1305::aead::Error>)
    requires
        key@.len() == 32,
        nonce@.len() == 24,
    ensures
        r is Ok <==> plain@.len() < MAX_PLAINTEXT_LEN,
        r matches Ok(c) ==> {
            &&& c@ == xchacha20poly1305_seal(key@, nonce@, plain@)
            &&& c@.len() == plain@.len() + TAG_SIZE
            &&& xchacha20poly1305_open(key@, nonce@, c@) == Some(plain@)
        },
{
    let cipher = chacha20poly1305::XChaCha20Poly1305::new(chacha20poly1305::Key::from_slice(key));
    cipher.encrypt(chacha20poly1305::XNonce::from_slice(nonce), plain)
}

/// Calls `Aead::decrypt` of `chacha20poly1305::XChaCha20Poly1305`. Trusted
/// as `chacha20poly1305_decrypt`, with a 24-byte nonce.
#[verifier::external_body]
fn xchacha20poly1305_decrypt(key: &[u8], nonce: &[u8], sealed: &[u8]) -> (r: Result<Vec<u8>, chacha20poly1305::aead::Error>)
    requires
        key@.len() == 32,
        nonce@.len() == 24,
    ensures
        r is Ok <==> xchacha20poly1305_open(key@, nonce@, sealed@) is Some,
        r matches Ok(p) ==> xchacha20poly1305_open(key@, nonce@, sealed@) == Some(p@)
            && p@.len() + TAG_SIZE == sealed@.len(),
        sealed@.len() < TAG_SIZE ==> r is Err,
{
    let cipher = chacha20poly1305::XChaCha20Poly1305::new(chacha20poly1305::Key::from_slice(key));
    cipher.decrypt(chacha20poly1305::XNonce::from_slice(nonce), sealed)
}

/// Calls `KeyInit::generate_key` of `ChaCha20Poly1305` with `OsRng`.
/// Trusted: 32 random bytes; nothing is said of their value.
#[verifier::external_body]
fn chacha20poly1305_random_key() -> (r: Vec<u8>)
    ensures
        r@.len() == 32,
{
    chacha20poly1305::ChaCha20Poly1305::generate_key(&mut OsRng).to_vec()
}

/// Calls `AeadCore::generate_nonce` of `ChaCha20Poly1305` with `OsRng`.
/// Trusted: 12 random bytes; nothing is said of their value.
#[verifier::external_body]
fn chacha20poly1305_random_nonce() -> (r: Vec<u8>)
    ensures
        r@.len() == 12,
{
    chacha20poly1305::ChaCha20Poly1305::generate_nonce(&mut OsRng).to_vec()
}

/// Calls `KeyInit::generate_key` of `XChaCha20Poly1305` with `OsRng`.
/// Trusted: 32 random bytes; nothing is said of their value.
#[verifier::external_body]
fn xchacha20poly1305_random_key() -> (r: Vec<u8>)
    ensures
        r@.len() == 32,
{
    chacha20poly1305::XChaCha20Poly1305::generate_key(&mut OsRng).to_vec()
}

/// Calls `AeadCore::generate_nonce` of `XChaCha20Poly1305` with `OsRng`.
/// Trusted: 24 random bytes; nothing is said of their value.
#[verifier::external_body]
fn xchacha20poly1305_random_nonce() -> (r: Vec<u8>)
    ensures
        r@.len() == 24,
{
    chacha20poly1305::XChaCha20Poly1305::generate_nonce(&mut OsRng).to_vec()
}

/// An authenticated cipher with a 32-byte key: what a chunk or a key is sealed with.
pub trait Crypto: Sized {
    /// Length of a key in bytes.
    spec fn key_len() -> nat;

    /// Length of a nonce in bytes.
    spec fn nonce_len() -> nat;

    /// The sealed form of `plain` under `key` and `nonce`.
    spec fn seal(key: Seq<u8>, nonce: Seq<u8>, plain: Seq<u8>) -> Seq<u8>;

    /// The plaintext that `sealed` opens to under `key` and `nonce`, if it authenticates.
    spec fn open(key: Seq<u8>, nonce: Seq<u8>, sealed: Seq<u8>) -> Option<Seq<u8>>;

    /// Keys are 32 bytes; nonces between 12 and 24.
    proof fn lemma_sizes()
        ensures
            Self::key_len() == 32,
            12 <= Self::nonce_len() <= 24,
    ;

    fn key_size() -> (r: usize)
        ensures
            r == Self::key_len(),
            r == 32,
    ;

    fn nonce_size() -> (r: usize)
        ensures
            r == Self::nonce_len(),
            12 <= r <= 24,
    ;

    /// Seals `plain`; refused exactly for plaintexts of `MAX_PLAINTEXT_LEN` bytes or more.
    fn encrypt(key: &[u8], nonce: &[u8], plain: &[u8]) -> (r: Result<Vec<u8>, CtbError>)
        requires
            key@.len() == Self::key_len(),
            nonce@.len() == Self::nonce_len(),
        ensures
            r is Ok <==> plain@.len() < MAX_PLAINTEXT_LEN,
            r is Err ==> r == Err::<Vec<u8>, CtbError>(CtbError::Encryption),
            r matches Ok(c) ==> {
                &&& c@ == Self::seal(key@, nonce@, plain@)
                &&& c@.len() == plain@.len() + TAG_SIZE
                &&& Self::open(key@, nonce@, c@) == Some(plain@)
            },
    ;

    /// Opens `sealed`; fails exactly where it does not authenticate.
    fn decrypt(key: &[u8], nonce: &[u8], sealed: &[u8]) -> (r: Result<Vec<u8>, CtbError>)
        requires
            key@.len() == Self::key_len(),
            nonce@.len() == Self::nonce_len(),
        ensures
            r is Ok <==> Self::open(key@, nonce@, sealed@) is Some,
            r is Err ==> r == Err::<Vec<u8>, CtbError>(CtbError::Decryption),
            r matches Ok(p) ==> Self::open(key@, nonce@, sealed@) == Some(p@)
                && p@.len() + TAG_SIZE == sealed@.len(),
            sealed@.len() < TAG_SIZE ==> r is Err,
    ;

    /// A fresh random key.
    fn generate_key() -> (r: Vec<u8>)
        ensures
            r@.len() == Self::key_len(),
    ;

    /// A fresh random nonce.
    fn generate_nonce() -> (r: Vec<u8>)
        ensures
            r@.len() == Self::nonce_len(),
    ;
}

/// ChaCha20-Poly1305 with a 96-bit nonce.
pub struct ChaCha20Poly1305;

/// XChaCha20-Poly1305 with a 192-bit nonce.
pub struct XChaCha20Poly1305;

impl Crypto for ChaCha20Poly1305 {
    open spec fn key_len() -> nat {
        32
    }

    open spec fn nonce_len() -> nat {
        12
    }

    open spec fn seal(key: Seq<u8>, nonce: Seq<u8>, plain: Seq<u8>) -> Seq<u8> {
        chacha20poly1305_seal(key, nonce, plain)
    }

    open spec fn open(key: Seq<u8>, nonce: Seq<u8>, sealed: Seq<u8>) -> Option<Seq<u8>> {
        chacha20poly1305_open(key, nonce, sealed)
    }

    proof fn lemma_sizes() {
    }

    fn key_size() -> (r: usize) {
        32
    }

    fn nonce_size() -> (r: usize) {
        12
    }

    fn encrypt(key: &[u8], nonce: &[u8], plain: &[u8]) -> (r: Result<Vec<u8>, CtbError>) {
        match chacha20poly1305_encrypt(key, nonce, plain) {
            Ok(c) => Ok(c),
            Err(_) => Err(CtbError::Encryption),
        }
    }

    fn decrypt(key: &[u8], nonce: &[u8], sealed: &[u8]) -> (r: Result<Vec<u8>, CtbError>) {
        match chacha20poly1305_decrypt(key, nonce, sealed) {
            Ok(p) => Ok(p),
            Err(_) => Err(CtbError::Decryption),
        }
    }

    fn generate_key() -> (r: Vec<u8>) {
        chacha20poly1305_random_key()
    }

    fn generate_nonce() -> (r: Vec<u8>) {
        chacha20poly1305_random_nonce()
    }

}

impl Crypto for XChaCha20Poly1305 {
    open spec fn key_len() -> nat {
        32
    }

    open spec fn nonce_len() -> nat {
        24
    }

    open spec fn seal(key: Seq<u8>, nonce: Seq<u8>, plain: Seq<u8>) -> Seq<u8> {
        xchacha20poly1305_seal(key, nonce, plain)
    }

    open spec fn open(key: Seq<u8>, nonce: Seq<u8>, sealed: Seq<u8>) -> Option<Seq<u8>> {
        xchacha20poly1305_open(key, nonce, sealed)
    }

    proof fn lemma_sizes() {
    }

    fn key_size() -> (r: usize) {
        32
    }

    fn nonce_size() -> (r: usize) {
        24
    }

    fn encrypt(key: &[u8], nonce: &[u8], plain: &[u8]) -> (r: Result<Vec<u8>, CtbError>) {
        match xchacha20poly1305_encrypt(key, nonce, plain) {
            Ok(c) => Ok(c),
            Err(_) => Err(CtbError::Encryption),
        }
    }

    fn decrypt(key: &[u8], nonce: &[u8], sealed: &[u8]) -> (r: Result<Vec<u8>, CtbError>) {
        match xchacha20poly1305_decrypt(key, nonce, sealed) {
            Ok(p) => Ok(p),
            Err(_) => Err(CtbError::Decryption),
        }
    }

    fn generate_key() -> (r: Vec<u8>) {
        xchacha20poly1305_random_key()
    }

    fn generate_nonce() -> (r: Vec<u8>) {
        xchacha20poly1305_random_nonce()
    }

}

/// Seals one chunk of a file under the data key and the chunk's nonce.
pub fn encrypt_chunk<C: Crypto>(plain: &Vec<u8>, key: &Vec<u8>, nonce: &Vec<u8>) -> (r: Result<Vec<u8>, CtbError>)
    requires
        key@.len() == C::key_len(),
        nonce@.len() == C::nonce_len(),
    ensures
        r is Ok <==> plain@.len() < MAX_PLAINTEXT_LEN,
        r is Err ==> r == Err::<Vec<u8>, CtbError>(CtbError::Encryption),
        r matches Ok(c) ==> {
            &&& c@ == C::seal(key@, nonce@, plain@)
            &&& c@.len() == plain@.len() + TAG_SIZE
            &&& C::open(key@, nonce@, c@) == Some(plain@)
        },
{
    C::encrypt(key.as_slice(), nonce.as_slice(), plain.as_slice())
}

/// Opens one sealed chunk of a file under the data key and the chunk's nonce.
pub fn decrypt_chunk<C: Crypto>(encrypted: &Vec<u8>, key: &Vec<u8>, nonce: &Vec<u8>) -> (r: Result<Vec<u8>, CtbError>)
    requires
        key@.len() == C::key_len(),
        nonce@.len() == C::nonce_len(),
    ensures
        r is Ok <==> C::open(key@, nonce@, encrypted@) is Some,
        r is Err ==> r == Err::<Vec<u8>, CtbError>(CtbError::Decryption),
        r matches Ok(p) ==> C::open(key@, nonce@, encrypted@) == Some(p@),
{
    C::decrypt(key.as_slice(), nonce.as_slice(), encrypted.as_slice())
}

} // verus!
