use vstd::prelude::*;
use vstd::utf8::*;

use base64::engine::general_purpose::URL_SAFE_NO_PAD;
use base64::Engine;
use xsalsa20poly1305::aead::{Aead, KeyInit, OsRng};
use xsalsa20poly1305::XSalsa20Poly1305;

use crate::error::ErrorKind;
use crate::hash::{blake3_digest, blake3_of};

verus! {

/// XSalsa20-Poly1305 sealing of `message` under `key` and `nonce`: the tag
/// then the ciphertext, or `None` where the cipher refuses.
pub uninterp spec fn sealed_of(key: Seq<u8>, nonce: Seq<u8>, message: Seq<u8>) -> Option<Seq<u8>>;

/// XSalsa20-Poly1305 opening of `sealed`: the plaintext, or `None` where the
/// tag does not authenticate.
pub uninterp spec fn opened_of(key: Seq<u8>, nonce: Seq<u8>, sealed: Seq<u8>) -> Option<Seq<u8>>;

/// URL-safe base64 text of `b`, without padding.
pub uninterp spec fn base64_url_of(b: Seq<u8>) -> Seq<char>;

/// Bytes of URL-safe unpadded base64 text, or `None` where it is not such text.
pub uninterp spec fn base64_url_decoded(text: Seq<u8>) -> Option<Seq<u8>>;

/// Relies on `XSalsa20Poly1305::generate_nonce` with `OsRng`: 24 random bytes.
#[verifier::external_body]
fn fresh_nonce() -> (r: [u8; 24]) {
    let nonce = XSalsa20Poly1305::generate_nonce(&mut OsRng);
    let mut out = [0u8; 24];
    out.copy_from_slice(nonce.as_slice());
    out
}

/// Relies on `XSalsa20Poly1305::encrypt` (cipher built by `KeyInit::new`),
/// with no associated data.
#[verifier::external_body]
fn seal(key: &[u8; 32], nonce: &[u8; 24], message: &[u8]) -> (r: Option<Vec<u8>>)
    ensures
        match r {
            Some(c) => sealed_of(key@, nonce@, message@) == Some(c@),
            None => sealed_of(key@, nonce@, message@) is None,
        },
{
    XSalsa20Poly1305::new(key.into()).encrypt(nonce.into(), message).ok()
}

/// Relies on `XSalsa20Poly1305::decrypt` (cipher built by `KeyInit::new`),
/// with no associated data.
#[verifier::external_body]
fn unseal(key: &[u8; 32], nonce: &[u8; 24], sealed: &[u8]) -> (r: Option<Vec<u8>>)
    ensures
        match r {
            Some(p) => opened_of(key@, nonce@, sealed@) == Some(p@),
            None => opened_of(key@, nonce@, sealed@) is None,
        },
{
    XSalsa20Poly1305::new(key.into()).decrypt(nonce.into(), sealed).ok()
}

/// Relies on `Engine::encode` of base64's `URL_SAFE_NO_PAD`.
#[verifier::external_body]
fn base64_encode(b: &[u8]) -> (r: String)
    ensures
        r@ == base64_url_of(b@),
{
    URL_SAFE_NO_PAD.encode(b)
}

/// Relies on `Engine::decode` of base64's `URL_SAFE_NO_PAD`.
#[verifier::external_body]
fn base64_decode(text: &[u8]) -> (r: Option<Vec<u8>>)
    ensures
        match r {
            Some(b) => base64_url_decoded(text@) == Some(b@),
            None => base64_url_decoded(text@) is None,
        },
{
    URL_SAFE_NO_PAD.decode(text).ok()
}

/// Relies on `String::from_utf8`: the text where the bytes are valid UTF-8.
#[verifier::external_body]
fn utf8_text(bytes: Vec<u8>) -> (r: Option<String>)
    ensures
        match r {
            Some(s) => valid_utf8(bytes@) && s@ == decode_utf8(bytes@),
            None => !valid_utf8(bytes@),
        },
{
    String::from_utf8(bytes).ok()
}

/// The cipher key derived from a secret: its BLAKE3 digest.
pub open spec fn secret_key(secret: Seq<char>) -> Seq<u8> {
    blake3_of(encode_utf8(secret))
}

/// Encrypted form of `text`: base64 of the nonce followed by the sealed text.
pub open spec fn encrypted_text(text: Seq<char>, secret: Seq<char>, nonce: Seq<u8>) -> Option<Seq<char>> {
    match sealed_of(secret_key(secret), nonce, encode_utf8(text)) {
        Some(c) => Some(base64_url_of(nonce + c)),
        None => None,
    }
}

/// Text recovered from an encrypted form, where it decodes, is long enough
/// to hold a nonce, authenticates, and is UTF-8.
pub open spec fn decrypted_text(encrypted: Seq<char>, secret: Seq<char>) -> Option<Seq<char>> {
    match base64_url_decoded(encode_utf8(encrypted)) {
        None => None,
        Some(b) => if b.len() < 24 {
            None
        } else {
            match opened_of(secret_key(secret), b.subrange(0, 24), b.subrange(24, b.len() as int)) {
                Some(p) => if valid_utf8(p) {
                    Some(decode_utf8(p))
                } else {
                    None
                },
                None => None,
            }
        },
    }
}

/// Encrypts `text` under a key derived from `secret`, with the given nonce.
pub fn encrypt_with_nonce(text: &str, secret: &str, nonce: [u8; 24]) -> (r: Result<String, ErrorKind>)
    ensures
        match encrypted_text(text@, secret@, nonce@) {
            Some(t) => r matches Ok(s) && s@ == t,
            None => r == Err::<String, ErrorKind>(ErrorKind::Crypto),
        },
{
    let key = blake3_digest(secret.as_bytes());
    let sealed = match seal(&key, &nonce, text.as_bytes()) {
        Some(c) => c,
        None => {
            return Err(ErrorKind::Crypto);
        },
    };
    let mut combined: Vec<u8> = Vec::new();
    let mut i: usize = 0;
    while i < 24
        invariant
            0 <= i <= 24,
            nonce@.len() == 24,
            combined@ == nonce@.subrange(0, i as int),
        decreases 24 - i,
    {
        combined.push(nonce[i]);
        i = i + 1;
        assert(combined@ =~= nonce@.subrange(0, i as int));
    }
    let mut j: usize = 0;
    while j < sealed.len()
        invariant
            0 <= j <= sealed@.len(),
            nonce@.len() == 24,
            combined@ == nonce@ + sealed@.subrange(0, j as int),
        decreases sealed@.len() - j,
    {
        combined.push(sealed[j]);
        j = j + 1;
        assert(combined@ =~= nonce@ + sealed@.subrange(0, j as int));
    }
    assert(sealed@.subrange(0, sealed@.len() as int) =~= sealed@);
    Ok(base64_encode(combined.as_slice()))
}

/// Encrypts `text` under a key derived from `secret`, with a fresh random
/// nonce: the result is the encrypted form for some 24-byte nonce.
pub fn encrypt(text: &str, secret: &str) -> (r: Result<String, ErrorKind>)
    ensures
        exists|n: Seq<u8>|
            n.len() == 24 && match encrypted_text(text@, secret@, n) {
                Some(t) => r matches Ok(s) && s@ == t,
                None => r == Err::<String, ErrorKind>(ErrorKind::Crypto),
            },
{
    let nonce = fresh_nonce();
    let r = encrypt_with_nonce(text, secret, nonce);
    assert(nonce@.len() == 24);
    r
}

/// Decrypts the output of `encrypt`; fails with `Crypto` on a wrong secret or
/// on damaged or malformed input.
pub fn decrypt(encrypted: &str, secret: &str) -> (r: Result<String, ErrorKind>)
    ensures
        match decrypted_text(encrypted@, secret@) {
            Some(t) => r matches Ok(s) && s@ == t,
            None => r == Err::<String, ErrorKind>(ErrorKind::Crypto),
        },
{
    let key = blake3_digest(secret.as_bytes());
    let bytes = match base64_decode(encrypted.as_bytes()) {
        Some(b) => b,
        None => {
            return Err(ErrorKind::Crypto);
        },
    };
    if bytes.len() < 24 {
        return Err(ErrorKind::Crypto);
    }
    let mut nonce: [u8; 24] = [0u8; 24];
    let mut i: usize = 0;
    while i < 24
        invariant
            0 <= i <= 24,
            bytes@.len() >= 24,
            nonce@.len() == 24,
            forall|k: int| 0 <= k < i ==> nonce@[k] == bytes@[k],
        decreases 24 - i,
    {
        nonce[i] = bytes[i];
        i = i + 1;
    }
    assert(nonce@ =~= bytes@.subrange(0, 24));
    let mut sealed: Vec<u8> = Vec::new();
    let mut j: usize = 24;
    while j < bytes.len()
        invariant
            24 <= j <= bytes@.len(),
            sealed@ == bytes@.subrange(24, j as int),
        decreases bytes@.len() - j,
    {
        sealed.push(bytes[j]);
        j = j + 1;
        assert(sealed@ =~= bytes@.subrange(24, j as int));
    }
    let plain = match unseal(&key, &nonce, sealed.as_slice()) {
        Some(p) => p,
        None => {
            return Err(ErrorKind::Crypto);
        },
    };
    match utf8_text(plain) {
        Some(s) => Ok(s),
        None => Err(ErrorKind::Crypto),
    }
}

} // verus!
