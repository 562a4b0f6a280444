//! The cryptographic primitives the ledger rests on: SHA-256 from `sha2`
//! and Ed25519 from `ed25519_dalek`. Nothing here is proved. Each primitive
//! is a function of its arguments alone, so its result has a name that the
//! contracts of the rest of the library speak of.

use ed25519_dalek::Signer;
use sha2::{Digest, Sha256};
use vstd::prelude::*;

verus! {

/// The SHA-256 digest of `data`.
pub uninterp spec fn sha256(data: Seq<u8>) -> Seq<u8>;

/// The Ed25519 public key that belongs to the secret key `seed`.
pub uninterp spec fn ed25519_public_key(seed: Seq<u8>) -> Seq<u8>;

/// The Ed25519 signature of `message` under the secret key `seed`.
pub uninterp spec fn ed25519_signature(seed: Seq<u8>, message: Seq<u8>) -> Seq<u8>;

/// Whether `signature` passes strict Ed25519 verification for `message`
/// under `public_key`.
pub uninterp spec fn ed25519_verifies(
    public_key: Seq<u8>,
    message: Seq<u8>,
    signature: Seq<u8>,
) -> bool;

/// Calls `sha2::Sha256::digest`. Trusted: the result is the SHA-256 digest
/// of `data`, a function of `data` alone.
#[verifier::external_body]
pub(crate) fn sha256_digest(data: &[u8]) -> (digest: [u8; 32])
    ensures
        digest@ == sha256(data@),
{
    Sha256::digest(data).into()
}

/// Calls `ed25519_dalek::SigningKey::verifying_key` on the key made from
/// `seed`. Trusted: the result is the public key's 32-byte encoding, a
/// function of `seed` alone.
#[verifier::external_body]
pub(crate) fn ed25519_derive_public(seed: &[u8; 32]) -> (public_key: [u8; 32])
    ensures
        public_key@ == ed25519_public_key(seed@),
{
    ed25519_dalek::SigningKey::from_bytes(seed).verifying_key().to_bytes()
}

/// Calls `ed25519_dalek::SigningKey::sign` (the `Signer` impl) on the key
/// made from `seed`. Trusted: signing is deterministic, so the 64 signature
/// bytes are a function of `seed` and `message` alone. Whether the
/// signature verifies is not claimed.
#[verifier::external_body]
pub(crate) fn ed25519_sign(seed: &[u8; 32], message: &[u8]) -> (signature: [u8; 64])
    ensures
        signature@ == ed25519_signature(seed@, message@),
{
    ed25519_dalek::SigningKey::from_bytes(seed).sign(message).to_bytes()
}

/// Calls `ed25519_dalek::VerifyingKey::verify_strict` on the key decoded
/// from `public_key`. Trusted: the outcome is a function of the three byte
/// strings alone. Bytes that do not decode to a key verify nothing.
#[verifier::external_body]
pub(crate) fn ed25519_verify_strict(
    public_key: &[u8; 32],
    message: &[u8],
    signature: &[u8; 64],
) -> (valid: bool)
    ensures
        valid == ed25519_verifies(public_key@, message@, signature@),
{
    let signature = ed25519_dalek::Signature::from_bytes(signature);
    match ed25519_dalek::VerifyingKey::from_bytes(public_key) {
        Ok(key) => key.verify_strict(message, &signature).is_ok(),
        Err(_) => false,
    }
}

} // verus!
