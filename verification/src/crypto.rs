//! Trusted bindings to the cryptographic primitives: SHA-256 digests and
//! Ed25519 signing keys, signatures and strict verification.
//!
//! Each binding gives the outside call a contract over named results; the
//! names (`sha256_of`, `ed_sign`, ...) stand for what the primitive computes,
//! which is a function of the argument bytes alone.

use vstd::prelude::*;
use sha2::Digest;
use ed25519_dalek::Signer;

verus! {

/// The SHA-256 digest of a byte string.
pub uninterp spec fn sha256_of(data: Seq<u8>) -> Seq<u8>;

/// The Ed25519 verifying key derived from 32 secret key bytes.
pub uninterp spec fn vk_of(sk: Seq<u8>) -> Seq<u8>;

/// The Ed25519 signature of a message under 32 secret key bytes.
pub uninterp spec fn ed_sign(sk: Seq<u8>, msg: Seq<u8>) -> Seq<u8>;

/// Whether a signature passes strict Ed25519 verification under the given
/// public key bytes.
pub uninterp spec fn ed_verifies(pk: Seq<u8>, msg: Seq<u8>, sig: Seq<u8>) -> bool;

/// Whether 32 bytes decode to a valid Ed25519 public key.
pub uninterp spec fn ed_pk_ok(pk: Seq<u8>) -> bool;

/// Relies on `sha2::Sha256` (`Digest::update` / `finalize`): the digest is a
/// pure function of the input bytes and is 32 bytes long.
#[verifier::external_body]
pub fn sha256(data: &Vec<u8>) -> (r: Vec<u8>)
    ensures
        r@ == sha256_of(data@),
        r@.len() == 32,
{
    let mut hasher = sha2::Sha256::new();
    hasher.update(data.as_slice());
    hasher.finalize().to_vec()
}

/// Relies on `ed25519_dalek::SigningKey::{from_bytes, verifying_key}`: the
/// 32-byte verifying key is derived deterministically from the 32 secret key
/// bytes.
#[verifier::external_body]
pub fn verifying_key_of(sk: &Vec<u8>) -> (r: Vec<u8>)
    requires
        sk@.len() == 32,
    ensures
        r@ == vk_of(sk@),
        r@.len() == 32,
{
    let mut key_bytes = [0u8; 32];
    key_bytes.copy_from_slice(sk.as_slice());
    let key = ed25519_dalek::SigningKey::from_bytes(&key_bytes);
    key.verifying_key().to_bytes().to_vec()
}

/// Relies on `Signer::sign` for `ed25519_dalek::SigningKey`: Ed25519 signing
/// is deterministic in key and message (RFC 8032), the signature is 64 bytes,
/// and `verify_strict` accepts a signature so produced under the derived key.
#[verifier::external_body]
pub fn sign_message(sk: &Vec<u8>, msg: &Vec<u8>) -> (r: Vec<u8>)
    requires
        sk@.len() == 32,
    ensures
        r@ == ed_sign(sk@, msg@),
        r@.len() == 64,
        ed_verifies(vk_of(sk@), msg@, r@),
{
    let mut key_bytes = [0u8; 32];
    key_bytes.copy_from_slice(sk.as_slice());
    let key = ed25519_dalek::SigningKey::from_bytes(&key_bytes);
    key.sign(msg.as_slice()).to_bytes().to_vec()
}

/// Relies on `ed25519_dalek::VerifyingKey::{from_bytes, verify_strict}`:
/// whether a signature verifies strictly is a pure function of the public key
/// bytes, the message and the signature bytes; key bytes that do not decode
/// to a curve point never verify anything.
#[verifier::external_body]
pub fn ed_verify(pk: &Vec<u8>, msg: &Vec<u8>, sig: &Vec<u8>) -> (r: bool)
    requires
        pk@.len() == 32,
        sig@.len() == 64,
    ensures
        r == ed_verifies(pk@, msg@, sig@),
        r ==> ed_pk_ok(pk@),
{
    let mut pk_bytes = [0u8; 32];
    pk_bytes.copy_from_slice(pk.as_slice());
    let key = match ed25519_dalek::VerifyingKey::from_bytes(&pk_bytes) {
        Ok(k) => k,
        Err(_) => {
            return false;
        },
    };
    let mut sig_bytes = [0u8; 64];
    sig_bytes.copy_from_slice(sig.as_slice());
    let signature = ed25519_dalek::Signature::from_bytes(&sig_bytes);
    key.verify_strict(msg.as_slice(), &signature).is_ok()
}

/// Relies on `ed25519_dalek::VerifyingKey::from_bytes`: whether 32 bytes
/// decode to a valid public key is a pure function of the bytes.
#[verifier::external_body]
pub fn ed_pk_decodes(pk: &Vec<u8>) -> (r: bool)
    requires
        pk@.len() == 32,
    ensures
        r == ed_pk_ok(pk@),
{
    let mut pk_bytes = [0u8; 32];
    pk_bytes.copy_from_slice(pk.as_slice());
    ed25519_dalek::VerifyingKey::from_bytes(&pk_bytes).is_ok()
}

/// Relies on `rand::rngs::OsRng` (`Rng::fill`): fills the buffer from the
/// operating system's entropy source.  Nothing is assumed of the values; the
/// result is the 32 secret key bytes of a fresh signing key.
#[verifier::external_body]
pub fn generate_keypair() -> (r: Vec<u8>)
    ensures
        r@.len() == 32,
{
    let mut bytes = [0u8; 32];
    rand::Rng::fill(&mut rand::rngs::OsRng, &mut bytes[..]);
    bytes.to_vec()
}

} // verus!
