//! Encryption of stored secrets with AES-256-GCM. A stored blob is the
//! base64 (standard alphabet, padded) encoding of `nonce[12] || ciphertext`.

use vstd::prelude::*;
use vstd::utf8::{decode_utf8, encode_utf8, encode_utf8_decode_utf8, encode_utf8_valid_utf8, valid_utf8};
use crate::error::AppError;
use aes_gcm::aead::{Aead, AeadCore, KeyInit, OsRng};
use base64::Engine as _;

verus! {

/// The text that base64 (standard alphabet, padded) encoding gives for some bytes.
pub uninterp spec fn base64_encoded(b: Seq<u8>) -> Seq<char>;

/// The bytes that base64 (standard alphabet, padded) decoding gives for a text,
/// `None` when the text is not valid base64.
pub uninterp spec fn base64_decoded(s: Seq<char>) -> Option<Seq<u8>>;

/// The ciphertext (with tag) that AES-256-GCM gives for a key, nonce and
/// plaintext, `None` when the plaintext is too long to encrypt.
pub uninterp spec fn aes_gcm_sealed(key: Seq<u8>, nonce: Seq<u8>, plain: Seq<u8>) -> Option<Seq<u8>>;

/// The plaintext that AES-256-GCM decryption gives for a key, nonce and
/// ciphertext, `None` when authentication fails.
pub uninterp spec fn aes_gcm_opened(key: Seq<u8>, nonce: Seq<u8>, ct: Seq<u8>) -> Option<Seq<u8>>;

/// `base64::engine::general_purpose::STANDARD.encode`. The result is named;
/// decoding it gives the input back.
#[verifier::external_body]
fn b64_encode(b: &[u8]) -> (r: String)
    ensures
        r@ == base64_encoded(b@),
        base64_decoded(r@) == Some(b@),
{
    base64::engine::general_purpose::STANDARD.encode(b)
}

/// `base64::engine::general_purpose::STANDARD.decode`. The result is named.
#[verifier::external_body]
fn b64_decode(s: &str) -> (r: Option<Vec<u8>>)
    ensures
        match r {
            Some(v) => base64_decoded(s@) == Some(v@),
            None => base64_decoded(s@) is None,
        },
{
    base64::engine::general_purpose::STANDARD.decode(s).ok()
}

/// `Aes256Gcm::encrypt` with a 12-byte nonce. The result is named; decrypting
/// it with the same key and nonce gives the plaintext back.
#[verifier::external_body]
fn aes_seal(key: &[u8; 32], nonce: &[u8], plain: &[u8]) -> (r: Option<Vec<u8>>)
    requires
        nonce@.len() == 12,
    ensures
        match r {
            Some(c) => aes_gcm_sealed(key@, nonce@, plain@) == Some(c@),
            None => aes_gcm_sealed(key@, nonce@, plain@) is None,
        },
        r matches Some(c) ==> aes_gcm_opened(key@, nonce@, c@) == Some(plain@),
{
    let cipher = aes_gcm::Aes256Gcm::new(aes_gcm::Key::<aes_gcm::Aes256Gcm>::from_slice(key));
    cipher.encrypt(aes_gcm::Nonce::from_slice(nonce), plain).ok()
}

/// `Aes256Gcm::decrypt` with a 12-byte nonce. The result is named.
#[verifier::external_body]
fn aes_open(key: &[u8; 32], nonce: &[u8], ct: &[u8]) -> (r: Option<Vec<u8>>)
    requires
        nonce@.len() == 12,
    ensures
        match r {
            Some(p) => aes_gcm_opened(key@, nonce@, ct@) == Some(p@),
            None => aes_gcm_opened(key@, nonce@, ct@) is None,
        },
{
    let cipher = aes_gcm::Aes256Gcm::new(aes_gcm::Key::<aes_gcm::Aes256Gcm>::from_slice(key));
    cipher.decrypt(aes_gcm::Nonce::from_slice(nonce), ct).ok()
}

/// `Aes256Gcm::generate_nonce(&mut OsRng)`: twelve random bytes. Nothing is
/// said of their values.
#[verifier::external_body]
fn random_nonce() -> (r: Vec<u8>)
    ensures
        r@.len() == 12,
{
    aes_gcm::Aes256Gcm::generate_nonce(&mut OsRng).to_vec()
}

/// `String::from_utf8`: the text the bytes encode, when they are valid UTF-8.
#[verifier::external_body]
fn utf8_string(b: Vec<u8>) -> (r: Option<String>)
    ensures
        r is Some <==> valid_utf8(b@),
        r matches Some(s) ==> s@ == decode_utf8(b@),
{
    String::from_utf8(b).ok()
}

/// The blob `encrypt` stores for a plaintext under a key and nonce.
pub open spec fn sealed_blob(key: Seq<u8>, nonce: Seq<u8>, plain: Seq<char>) -> Option<Seq<char>> {
    match aes_gcm_sealed(key, nonce, encode_utf8(plain)) {
        Some(ct) => Some(base64_encoded(nonce + ct)),
        None => None,
    }
}

/// What `decrypt` gives back for a blob under a key.
pub open spec fn opened_blob(key: Seq<u8>, blob: Seq<char>) -> Option<Seq<char>> {
    match base64_decoded(blob) {
        None => None,
        Some(b) => if b.len() < 12 {
            None
        } else {
            match aes_gcm_opened(key, b.take(12), b.skip(12)) {
                None => None,
                Some(p) => if valid_utf8(p) {
                    Some(decode_utf8(p))
                } else {
                    None
                },
            }
        },
    }
}

/// Encrypts a plaintext with AES-256-GCM under a fresh random nonce and
/// returns the base64 blob `nonce[12] || ciphertext`.
pub fn encrypt(plain: &str, key: &[u8; 32]) -> (r: Result<String, AppError>)
    ensures
        match r {
            Ok(blob) => exists|n: Seq<u8>| n.len() == 12 && sealed_blob(key@, n, plain@) == Some(blob@),
            Err(e) => e is Crypto && exists|n: Seq<u8>| n.len() == 12 && sealed_blob(key@, n, plain@) is None,
        },
        r matches Ok(blob) ==> opened_blob(key@, blob@) == Some(plain@),
{
    let nonce = random_nonce();
    let bytes = plain.as_bytes();
    match aes_seal(key, nonce.as_slice(), bytes) {
        None => {
            assert(sealed_blob(key@, nonce@, plain@) is None);
            Err(AppError::Crypto)
        },
        Some(ct) => {
            let mut blob = nonce.clone();
            let mut i: usize = 0;
            while i < ct.len()
                invariant
                    i <= ct@.len(),
                    blob@ == nonce@ + ct@.take(i as int),
                decreases ct@.len() - i,
            {
                blob.push(ct[i]);
                i = i + 1;
                assert(ct@.take(i as int) =~= ct@.take((i - 1) as int).push(ct@[i - 1]));
            }
            assert(ct@.take(ct@.len() as int) =~= ct@);
            let out = b64_encode(blob.as_slice());
            proof {
                assert(blob@.take(12) =~= nonce@);
                assert(blob@.skip(12) =~= ct@);
                encode_utf8_valid_utf8(plain@);
                encode_utf8_decode_utf8(plain@);
                assert(sealed_blob(key@, nonce@, plain@) == Some(out@));
            }
            Ok(out)
        },
    }
}

/// Decrypts a blob produced by `encrypt`.
pub fn decrypt(enc_blob: &str, key: &[u8; 32]) -> (r: Result<String, AppError>)
    ensures
        match r {
            Ok(s) => opened_blob(key@, enc_blob@) == Some(s@),
            Err(e) => e is Crypto && opened_blob(key@, enc_blob@) is None,
        },
{
    let blob = match b64_decode(enc_blob) {
        Some(b) => b,
        None => return Err(AppError::Crypto),
    };
    if blob.len() < 12 {
        return Err(AppError::Crypto);
    }
    let mut nonce: Vec<u8> = Vec::new();
    let mut ct: Vec<u8> = Vec::new();
    let mut i: usize = 0;
    while i < blob.len()
        invariant
            12 <= blob@.len(),
            i <= blob@.len(),
            i <= 12 ==> nonce@ == blob@.take(i as int) && ct@.len() == 0,
            i > 12 ==> nonce@ == blob@.take(12) && ct@ == blob@.subrange(12, i as int),
        decreases blob@.len() - i,
    {
        if i < 12 {
            nonce.push(blob[i]);
            assert(blob@.take(i + 1) =~= blob@.take(i as int).push(blob@[i as int]));
        } else {
            ct.push(blob[i]);
            assert(blob@.subrange(12, i + 1) =~= blob@.subrange(12, i as int).push(blob@[i as int]));
        }
        i = i + 1;
    }
    proof {
        if blob@.len() == 12 {
            assert(blob@.skip(12) =~= Seq::<u8>::empty());
            assert(ct@ =~= blob@.skip(12));
        } else {
            assert(blob@.subrange(12, blob@.len() as int) =~= blob@.skip(12));
        }
    }
    match aes_open(key, nonce.as_slice(), ct.as_slice()) {
        None => Err(AppError::Crypto),
        Some(p) => match utf8_string(p) {
            Some(s) => Ok(s),
            None => Err(AppError::Crypto),
        },
    }
}

} // verus!
