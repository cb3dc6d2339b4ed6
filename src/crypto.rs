//! Cryptographic primitives used by the transaction model: SHA-256 digests and
//! Ed25519 keys and signatures, each reached through one small trusted wrapper.

use vstd::prelude::*;

verus! {

/// The SHA-256 digest of `data`.
pub uninterp spec fn sha256_of(data: Seq<u8>) -> Seq<u8>;

/// The Ed25519 public key that belongs to the 32-byte secret key `secret`.
pub uninterp spec fn ed25519_public_of(secret: Seq<u8>) -> Seq<u8>;

/// The deterministic Ed25519 signature of `msg` under the secret key `secret`.
pub uninterp spec fn ed25519_signature_of(secret: Seq<u8>, msg: Seq<u8>) -> Seq<u8>;

/// Whether the Ed25519 verification of `sig` on `msg` under `public` succeeds.
pub uninterp spec fn ed25519_accepts(public: Seq<u8>, msg: Seq<u8>, sig: Seq<u8>) -> bool;

/// Relies on `sha2::Sha256::digest`: the SHA-256 digest of the bytes.
#[verifier::external_body]
pub(crate) fn sha256(data: &[u8]) -> (r: [u8; 32])
    ensures
        r@ == sha256_of(data@),
{
    <sha2::Sha256 as sha2::Digest>::digest(data).into()
}

/// Relies on `ed25519_dalek::SigningKey::from_bytes` and `verifying_key`: the
/// public key derived from a secret key (every 32-byte string is a secret key).
#[verifier::external_body]
pub(crate) fn ed25519_public(secret: &[u8; 32]) -> (r: [u8; 32])
    ensures
        r@ == ed25519_public_of(secret@),
{
    ed25519_dalek::SigningKey::from_bytes(secret).verifying_key().to_bytes()
}

/// Relies on `ed25519_dalek::Signer::sign` for `SigningKey`: the deterministic
/// signature of the message, which the matching public key accepts.
#[verifier::external_body]
pub(crate) fn ed25519_sign(secret: &[u8; 32], msg: &[u8]) -> (r: [u8; 64])
    ensures
        r@ == ed25519_signature_of(secret@, msg@),
        ed25519_accepts(ed25519_public_of(secret@), msg@, r@),
{
    let key = ed25519_dalek::SigningKey::from_bytes(secret);
    let sig: ed25519_dalek::Signature = ed25519_dalek::Signer::sign(&key, msg);
    sig.to_bytes()
}

/// Relies on `ed25519_dalek::VerifyingKey::from_bytes` and `Verifier::verify`:
/// whether the signature on the message is valid under the public key (a key
/// that is not a valid curve point accepts nothing).
#[verifier::external_body]
pub(crate) fn ed25519_verify(public: &[u8; 32], msg: &[u8], sig: &[u8; 64]) -> (r: bool)
    ensures
        r == ed25519_accepts(public@, msg@, sig@),
{
    let sig = ed25519_dalek::Signature::from_bytes(sig);
    match ed25519_dalek::VerifyingKey::from_bytes(public) {
        Ok(key) => ed25519_dalek::Verifier::verify(&key, msg, &sig).is_ok(),
        Err(_) => false,
    }
}

} // verus!
