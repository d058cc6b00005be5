//! At-rest encryption of secrets: a key derived from the configured
//! password and a fresh salt, AEAD encryption under a fresh nonce, and a
//! url-safe base64 envelope `salt || nonce || ciphertext`.
//!
//! The randomness, the key derivation, and the AEAD itself are outside
//! calls behind trusted wrappers; the framing, the length checks, and the
//! round trip are verified.

use crate::error::BichonError;
use crate::error::ErrorCode;
use crate::ingest::b64_url_decode;
use crate::ingest::b64_url_decode_of;
use crate::ingest::b64_url_encode;
use crate::ingest::b64_url_encode_of;
use vstd::prelude::*;
use vstd::string::StringExecFns;
use vstd::string::StringSliceAdditionalSpecFns;
use vstd::utf8::decode_utf8;
use vstd::utf8::encode_utf8;
use vstd::utf8::valid_utf8;

verus! {

/// The salt length of the envelope.
pub const SALT_LEN: usize = 32;

/// The nonce length of the envelope.
pub const NONCE_LEN: usize = 12;

/// The largest plaintext AES-256-GCM seals: (2^39 - 256) / 8 bytes.
pub const AES_GCM_MAX_PLAINTEXT: u64 = 68719476704;

/// What the password-based key derivation yields: a 32-byte key, a
/// function of the salt and the password alone.
pub uninterp spec fn kdf_of(salt: Seq<u8>, password: Seq<u8>) -> Seq<u8>;

/// What sealing yields under a key and nonce: ciphertext with its tag, a
/// function of the inputs alone.
pub uninterp spec fn seal_of(key: Seq<u8>, nonce: Seq<u8>, plaintext: Seq<u8>) -> Seq<u8>;

/// What opening yields: the plaintext where key, nonce and ciphertext
/// match, nothing otherwise.
pub uninterp spec fn open_of(key: Seq<u8>, nonce: Seq<u8>, data: Seq<u8>) -> Option<Seq<u8>>;

/// Relies on ring::rand::SystemRandom::fill: fresh bytes with nothing
/// promised of their values; a refusal of the system's generator comes
/// back as None, never as a weaker fill.
#[verifier::external_body]
pub fn fill_random(n: usize) -> (r: Option<Vec<u8>>)
    ensures
        r matches Some(v) ==> v@.len() == n,
{
    let mut buf = vec![0u8; n];
    let rng = ring::rand::SystemRandom::new();
    ring::rand::SecureRandom::fill(&rng, &mut buf).ok()?;
    Some(buf)
}

/// Relies on ring::pbkdf2::derive with HMAC-SHA256: the key is a function
/// of the salt and password alone.
#[verifier::external_body]
pub fn derive_key(salt: &[u8], password: &[u8]) -> (r: Vec<u8>)
    ensures
        r@ == kdf_of(salt@, password@),
        r@.len() == 32,
{
    let mut key = [0u8; 32];
    ring::pbkdf2::derive(
        ring::pbkdf2::PBKDF2_HMAC_SHA256,
        core::num::NonZeroU32::new(100000).unwrap(),
        salt,
        password,
        &mut key,
    );
    key.to_vec()
}

/// Relies on ring::aead::LessSafeKey::seal_in_place_append_tag with
/// AES-256-GCM: deterministic in the key, nonce and plaintext, failing
/// exactly when the plaintext exceeds the mode's length bound, and opening
/// the result under the same key and nonce returns the plaintext.
#[verifier::external_body]
pub fn aead_seal(key: &[u8], nonce: &[u8], plaintext: &[u8]) -> (r: Option<Vec<u8>>)
    requires
        key@.len() == 32,
        nonce@.len() == 12,
    ensures
        r is Some <==> plaintext@.len() <= AES_GCM_MAX_PLAINTEXT,
        r.deep_view() matches Some(c) ==> c == seal_of(key@, nonce@, plaintext@) && open_of(
            key@,
            nonce@,
            c,
        ) == Some(plaintext@),
{
    let unbound = ring::aead::UnboundKey::new(&ring::aead::AES_256_GCM, key).ok()?;
    let k = ring::aead::LessSafeKey::new(unbound);
    let n = ring::aead::Nonce::try_assume_unique_for_key(nonce).ok()?;
    let mut buf = plaintext.to_vec();
    k.seal_in_place_append_tag(n, ring::aead::Aad::empty(), &mut buf).ok()?;
    Some(buf)
}

/// Relies on ring::aead::LessSafeKey::open_in_place with AES-256-GCM: the
/// outcome is a function of the key, nonce and data alone.
#[verifier::external_body]
pub fn aead_open(key: &[u8], nonce: &[u8], data: &[u8]) -> (r: Option<Vec<u8>>)
    requires
        key@.len() == 32,
        nonce@.len() == 12,
    ensures
        r.deep_view() == open_of(key@, nonce@, data@),
{
    let unbound = ring::aead::UnboundKey::new(&ring::aead::AES_256_GCM, key).ok()?;
    let k = ring::aead::LessSafeKey::new(unbound);
    let n = ring::aead::Nonce::try_assume_unique_for_key(nonce).ok()?;
    let mut buf = data.to_vec();
    let pt = k.open_in_place(n, ring::aead::Aad::empty(), &mut buf).ok()?;
    Some(pt.to_vec())
}

/// Relies on String::from_utf8: accepts exactly valid UTF-8 and yields the
/// decoded characters, as the documentation of std says.
#[verifier::external_body]
pub fn utf8_to_string(b: Vec<u8>) -> (r: Option<String>)
    ensures
        r is Some <==> valid_utf8(b@),
        r matches Some(s) ==> s@ == decode_utf8(b@),
{
    String::from_utf8(b).ok()
}

/// What decrypting an envelope under a password yields: the base64 is
/// decoded, the salt and nonce split off, the ciphertext opened under the
/// derived key, and the plaintext read as text.
pub open spec fn spec_decrypt(password: Seq<u8>, data: Seq<char>) -> Option<Seq<char>> {
    match b64_url_decode_of(data) {
        Some(d) => if d.len() >= 44 {
            let salt = d.subrange(0, 32);
            let nonce = d.subrange(32, 44);
            let ct = d.subrange(44, d.len() as int);
            match open_of(kdf_of(salt, password), nonce, ct) {
                Some(pt) => if valid_utf8(pt) {
                    Some(decode_utf8(pt))
                } else {
                    None
                },
                None => None,
            }
        } else {
            None
        },
        None => None,
    }
}

/// Encrypts a secret under the configured password with the given salt
/// and nonce: the derived key, the sealed bytes, all framed and base64
/// encoded. Succeeds exactly where the material has the envelope's shape
/// and the plaintext fits the cipher's bound; the result decrypts back to
/// the plaintext under the same password.
pub fn encrypt_with_material(
    password: &str,
    plaintext: &str,
    salt: &Vec<u8>,
    nonce: &Vec<u8>,
) -> (r: Result<String, BichonError>)
    ensures
        r is Ok <==> salt@.len() == SALT_LEN && nonce@.len() == NONCE_LEN
            && plaintext.spec_bytes().len() <= AES_GCM_MAX_PLAINTEXT,
        r matches Ok(s) ==> spec_decrypt(password.spec_bytes(), s@) == Some(plaintext@),
        r matches Err(e) ==> e.code == ErrorCode::InternalError,
{
    broadcast use vstd::utf8::encode_utf8_valid_utf8;
    broadcast use vstd::utf8::encode_utf8_decode_utf8;

    if salt.len() != SALT_LEN || nonce.len() != NONCE_LEN {
        return Result::Err(
            BichonError::new(
                ErrorCode::InternalError,
                String::from_str("the key material does not have the envelope's shape"),
            ),
        );
    }
    let key = derive_key(salt.as_slice(), password.as_bytes());
    let pt = plaintext.as_bytes();
    let sealed = match aead_seal(key.as_slice(), nonce.as_slice(), pt) {
        Some(c) => c,
        None => {
            return Result::Err(
                BichonError::new(
                    ErrorCode::InternalError,
                    String::from_str("the secret is too large to seal"),
                ),
            );
        },
    };
    proof {
        assert(sealed.deep_view() =~= sealed@);
        assert(open_of(key@, nonce@, sealed@) == Some(plaintext.spec_bytes()));
    }
    let mut framed: Vec<u8> = Vec::new();
    let mut i: usize = 0;
    while i < salt.len()
        invariant
            i <= salt@.len(),
            framed@ == salt@.subrange(0, i as int),
        decreases salt@.len() - i,
    {
        framed.push(salt[i]);
        proof {
            assert(salt@.subrange(0, i + 1) =~= salt@.subrange(0, i as int).push(salt@[i as int]));
        }
        i = i + 1;
    }
    proof {
        assert(salt@.subrange(0, salt@.len() as int) =~= salt@);
    }
    let mut j: usize = 0;
    while j < nonce.len()
        invariant
            j <= nonce@.len(),
            framed@ == salt@ + nonce@.subrange(0, j as int),
        decreases nonce@.len() - j,
    {
        framed.push(nonce[j]);
        proof {
            assert(salt@ + nonce@.subrange(0, j + 1) =~= (salt@ + nonce@.subrange(
                0,
                j as int,
            )).push(nonce@[j as int]));
        }
        j = j + 1;
    }
    proof {
        assert(nonce@.subrange(0, nonce@.len() as int) =~= nonce@);
    }
    let mut k: usize = 0;
    while k < sealed.len()
        invariant
            k <= sealed@.len(),
            framed@ == salt@ + nonce@ + sealed@.subrange(0, k as int),
        decreases sealed@.len() - k,
    {
        framed.push(sealed[k]);
        proof {
            assert(salt@ + nonce@ + sealed@.subrange(0, k + 1) =~= (salt@ + nonce@
                + sealed@.subrange(0, k as int)).push(sealed@[k as int]));
        }
        k = k + 1;
    }
    proof {
        assert(sealed@.subrange(0, sealed@.len() as int) =~= sealed@);
        assert(framed@ =~= salt@ + nonce@ + sealed@);
    }
    let out = b64_url_encode(framed.as_slice());
    proof {
        let d = framed@;
        assert(d.subrange(0, 32) =~= salt@);
        assert(d.subrange(32, 44) =~= nonce@);
        assert(d.subrange(44, d.len() as int) =~= sealed@);
        assert(decode_utf8(encode_utf8(plaintext@)) == plaintext@);
        assert(valid_utf8(encode_utf8(plaintext@)));
        assert(b64_url_decode_of(out@) == Some(d));
        assert(key@ == kdf_of(salt@, password.spec_bytes()));
        assert(open_of(key@, nonce@, sealed@) == Some(plaintext.spec_bytes()));
        assert(open_of(kdf_of(d.subrange(0, 32), password.spec_bytes()), d.subrange(32, 44),
            d.subrange(44, d.len() as int)) == Some(encode_utf8(plaintext@)));
        assert(spec_decrypt(password.spec_bytes(), out@) == Some(plaintext@));
    }
    Result::Ok(out)
}

/// Encrypts a secret under the configured password: a fresh salt and
/// nonce are drawn, and the envelope is built by `encrypt_with_material`.
/// A refusal of the system's random generator is the one failure beyond
/// the cipher's length bound.
pub fn internal_encrypt_string(password: &str, plaintext: &str) -> (r: Result<
    String,
    BichonError,
>)
    ensures
        r matches Ok(s) ==> spec_decrypt(password.spec_bytes(), s@) == Some(plaintext@),
        plaintext.spec_bytes().len() > AES_GCM_MAX_PLAINTEXT ==> r is Err,
        r matches Err(e) ==> e.code == ErrorCode::InternalError,
{
    let salt = match fill_random(SALT_LEN) {
        Some(s) => s,
        None => {
            return Result::Err(
                BichonError::new(
                    ErrorCode::InternalError,
                    String::from_str("the system's random generator refused to fill the salt"),
                ),
            );
        },
    };
    let nonce = match fill_random(NONCE_LEN) {
        Some(n) => n,
        None => {
            return Result::Err(
                BichonError::new(
                    ErrorCode::InternalError,
                    String::from_str("the system's random generator refused to fill the nonce"),
                ),
            );
        },
    };
    encrypt_with_material(password, plaintext, &salt, &nonce)
}

/// Encrypts a secret under the service's configured key material.
pub fn encrypt_string(master: &str, plaintext: &str) -> (r: Result<String, BichonError>)
    ensures
        r matches Ok(s) ==> spec_decrypt(master.spec_bytes(), s@) == Some(plaintext@),
        plaintext.spec_bytes().len() > AES_GCM_MAX_PLAINTEXT ==> r is Err,
        r matches Err(e) ==> e.code == ErrorCode::InternalError,
{
    internal_encrypt_string(master, plaintext)
}

/// Decrypts a stored secret under the service's configured key material.
pub fn decrypt_string(master: &str, data: &str) -> (r: Result<String, BichonError>)
    ensures
        r is Ok <==> spec_decrypt(master.spec_bytes(), data@) is Some,
        r matches Ok(s) ==> Some(s@) == spec_decrypt(master.spec_bytes(), data@),
        r matches Err(e) ==> e.code == ErrorCode::InternalError,
{
    internal_decrypt_string(master, data)
}

/// Decrypts an envelope under the configured password: fails exactly where
/// the base64, the framing, the authentication, or the text decoding
/// fails, and otherwise returns the plaintext the envelope seals.
pub fn internal_decrypt_string(password: &str, data: &str) -> (r: Result<String, BichonError>)
    ensures
        r is Ok <==> spec_decrypt(password.spec_bytes(), data@) is Some,
        r matches Ok(s) ==> Some(s@) == spec_decrypt(password.spec_bytes(), data@),
        r matches Err(e) ==> e.code == ErrorCode::InternalError,
{
    let decoded = match b64_url_decode(data) {
        Some(d) => d,
        None => {
            return Result::Err(
                BichonError::new(
                    ErrorCode::InternalError,
                    String::from_str("the envelope is not valid base64"),
                ),
            );
        },
    };
    proof {
        assert(decoded.deep_view() =~= decoded@);
        assert(b64_url_decode_of(data@) == Some(decoded@));
    }
    if decoded.len() < 44 {
        return Result::Err(
            BichonError::new(
                ErrorCode::InternalError,
                String::from_str("the envelope is too short"),
            ),
        );
    }
    let salt = crate::eml_index::resolve_slice(decoded.as_slice(), 0, 32).unwrap();
    let nonce = crate::eml_index::resolve_slice(decoded.as_slice(), 32, 12).unwrap();
    let ct_len = (decoded.len() - 44) as u64;
    let ct = crate::eml_index::resolve_slice(decoded.as_slice(), 44, ct_len).unwrap();
    proof {
        assert(salt@ =~= decoded@.subrange(0, 32));
        assert(nonce@ =~= decoded@.subrange(32, 44));
        assert(ct@ =~= decoded@.subrange(44, decoded@.len() as int));
    }
    let key = derive_key(salt.as_slice(), password.as_bytes());
    let opened = match aead_open(key.as_slice(), nonce.as_slice(), ct.as_slice()) {
        Some(p) => p,
        None => {
            return Result::Err(
                BichonError::new(
                    ErrorCode::InternalError,
                    String::from_str("the envelope fails authentication under this password"),
                ),
            );
        },
    };
    proof {
        assert(opened.deep_view() =~= opened@);
        assert(open_of(key@, nonce@, ct@) == Some(opened@));
    }
    match utf8_to_string(opened) {
        Some(s) => Result::Ok(s),
        None => Result::Err(
            BichonError::new(
                ErrorCode::InternalError,
                String::from_str("the sealed bytes are not text"),
            ),
        ),
    }
}

} // verus!
