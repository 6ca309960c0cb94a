//! The primitives that other crates supply: SHA-256, HMAC-SHA-1 and Ed25519
//! from `ring`, its random numbers, and Argon2 for passwords.
//!
//! What each computes is named here and nowhere spelled out; the rest of the
//! library is proved over the names.

use argon2::password_hash::phc::PasswordHash;
use argon2::password_hash::{PasswordHasher, PasswordVerifier};
use argon2::Argon2;
use ring::rand::SecureRandom;
use ring::signature::KeyPair;
use vstd::prelude::*;

verus! {

/// What `ring` can put through a hash, with room for what signing puts in
/// front: its counter holds a length in bits.
pub open spec fn hashable(len: nat) -> bool {
    len <= 0x1fff_ffff_ffff_ff00
}

/// Whether `len` bytes can be hashed.
pub fn can_hash(len: usize) -> (yes: bool)
    ensures
        yes == hashable(len as nat),
{
    len as u64 <= 0x1fff_ffff_ffff_ff00
}

/// SHA-256 of a row of bytes.
pub uninterp spec fn sha256_of(data: Seq<u8>) -> Seq<u8>;

/// Calls `ring::digest::digest` with `SHA256`: the hash of `data`, 32 bytes
/// that depend on `data` alone. It panics past 2^61 bytes.
#[verifier::external_body]
pub(crate) fn sha256_digest(data: &[u8]) -> (hash: [u8; 32])
    requires
        hashable(data@.len()),
    ensures
        hash@ == sha256_of(data@),
{
    let digest = ring::digest::digest(&ring::digest::SHA256, data);
    let mut hash = [0u8; 32];
    hash.copy_from_slice(digest.as_ref());
    hash
}

/// HMAC-SHA-1 of a message under a key.
pub uninterp spec fn hmac_sha1_of(key: Seq<u8>, message: Seq<u8>) -> Seq<u8>;

/// Calls `ring::hmac::sign` with `HMAC_SHA1_FOR_LEGACY_USE_ONLY`: the tag, 20
/// bytes that depend on key and message alone.
#[verifier::external_body]
pub(crate) fn hmac_sha1(key: &[u8], message: &[u8]) -> (tag: [u8; 20])
    requires
        hashable(key@.len()),
        hashable(message@.len()),
    ensures
        tag@ == hmac_sha1_of(key@, message@),
{
    let key = ring::hmac::Key::new(ring::hmac::HMAC_SHA1_FOR_LEGACY_USE_ONLY, key);
    let signed = ring::hmac::sign(&key, message);
    let mut tag = [0u8; 20];
    tag.copy_from_slice(signed.as_ref());
    tag
}

/// The public half of the Ed25519 key in a PKCS#8 document, or the words in
/// which `ring` refuses the document.
pub uninterp spec fn ed25519_public_of(pkcs8: Seq<u8>) -> Result<Seq<u8>, Seq<char>>;

/// The Ed25519 signature of a message under the key in a PKCS#8 document.
pub uninterp spec fn ed25519_signature_of(pkcs8: Seq<u8>, message: Seq<u8>) -> Seq<u8>;

/// Whether a signature of a message holds under a public key.
pub uninterp spec fn ed25519_holds(key: Seq<u8>, message: Seq<u8>, signature: Seq<u8>) -> bool;

/// Calls `Ed25519KeyPair::from_pkcs8_maybe_unchecked` and takes the pair's
/// public key, which has 32 bytes. What is refused, and in which words,
/// depends on the document alone.
#[verifier::external_body]
pub(crate) fn ed25519_public(pkcs8: &[u8]) -> (public: Result<[u8; 32], String>)
    ensures
        match public {
            Ok(key) => ed25519_public_of(pkcs8@) == Ok::<Seq<u8>, Seq<char>>(key@),
            Err(why) => ed25519_public_of(pkcs8@) == Err::<Seq<u8>, Seq<char>>(why@),
        },
{
    let pair = ring::signature::Ed25519KeyPair::from_pkcs8_maybe_unchecked(pkcs8)
        .map_err(|e| e.to_string())?;
    let mut key = [0u8; 32];
    key.copy_from_slice(pair.public_key().as_ref());
    Ok(key)
}

/// Calls `Ed25519KeyPair::sign`: 64 bytes that depend on key and message
/// alone (Ed25519 draws no random numbers), and that hold for the message
/// under the pair's public key. Called only with a document that reads as a
/// key.
#[verifier::external_body]
pub(crate) fn ed25519_sign(pkcs8: &[u8], message: &[u8]) -> (signature: Vec<u8>)
    requires
        ed25519_public_of(pkcs8@) is Ok,
        hashable(message@.len()),
    ensures
        signature@ == ed25519_signature_of(pkcs8@, message@),
        signature@.len() == 64,
        ed25519_holds(ed25519_public_of(pkcs8@)->Ok_0, message@, signature@),
{
    let pair = ring::signature::Ed25519KeyPair::from_pkcs8_maybe_unchecked(pkcs8).unwrap();
    pair.sign(message).as_ref().to_vec()
}

/// Calls `UnparsedPublicKey::verify` with `ED25519`: whether it accepts,
/// which depends on key, message and signature alone.
#[verifier::external_body]
pub(crate) fn ed25519_verify(key: &[u8], message: &[u8], signature: &[u8]) -> (holds: bool)
    requires
        hashable(message@.len()),
    ensures
        holds == ed25519_holds(key@, message@, signature@),
{
    ring::signature::UnparsedPublicKey::new(&ring::signature::ED25519, key)
        .verify(message, signature)
        .is_ok()
}

/// Calls `Ed25519KeyPair::generate_pkcs8`: a fresh key, as a document that
/// reads as a key. `None` when the system has no random numbers.
#[verifier::external_body]
pub(crate) fn ed25519_generate() -> (pkcs8: Option<Vec<u8>>)
    ensures
        pkcs8 matches Some(document) ==> ed25519_public_of(document@) is Ok,
{
    ring::signature::Ed25519KeyPair::generate_pkcs8(&ring::rand::SystemRandom::new())
        .ok()
        .map(|document| document.as_ref().to_vec())
}

/// Calls `SystemRandom::fill` for `count` bytes. Which bytes they are is
/// chance; `None` when the system has none to give.
#[verifier::external_body]
pub(crate) fn random_bytes(count: usize) -> (bytes: Option<Vec<u8>>)
    requires
        count <= 1024,
    ensures
        bytes matches Some(filled) ==> filled@.len() == count,
{
    let mut filled = vec![0u8; count];
    ring::rand::SystemRandom::new().fill(&mut filled).ok().map(|()| filled)
}

/// Whether Argon2 accepts a password against a stored hash.
pub uninterp spec fn password_matches(password: Seq<char>, stored: Seq<char>) -> bool;

/// Calls `Argon2::verify_password` on the hash that `PasswordHash::new`
/// reads; a stored text that does not read as one accepts nothing. The answer
/// depends on the two texts alone.
#[verifier::external_body]
pub(crate) fn argon2_verify(password: &str, stored: &str) -> (accepted: bool)
    ensures
        accepted == password_matches(password@, stored@),
{
    PasswordHash::new(stored).is_ok_and(
        |parsed| Argon2::default().verify_password(password.as_bytes(), &parsed).is_ok(),
    )
}

/// Calls `Argon2::hash_password`, which draws a salt of its own: what comes
/// back is chance, but it accepts the password it was made from. The error is
/// the crate's, in words.
#[verifier::external_body]
pub(crate) fn argon2_hash(password: &str) -> (hash: Result<String, String>)
    ensures
        hash matches Ok(stored) ==> password_matches(password@, stored@),
{
    Argon2::default().hash_password(password.as_bytes()).map(|h| h.to_string()).map_err(
        |e| e.to_string(),
    )
}

}
