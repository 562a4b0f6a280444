//! Ed25519 keys and signatures as the byte strings that identify them.
//! Two verifying keys are the same key exactly when their encodings are
//! equal.

use crate::crypto::{
    ed25519_derive_public, ed25519_public_key, ed25519_sign, ed25519_signature,
    ed25519_verifies, ed25519_verify_strict,
};
use crate::shared::bytes_eq;
use vstd::prelude::*;

verus! {

/// A public key: the 32-byte encoding of an Ed25519 verifying key. Any 32
/// bytes can be held, whether or not they encode a key.
#[derive(Clone, Copy, Debug)]
pub struct VerifyingKey {
    bytes: [u8; 32],
}

/// A secret key: the 32-byte seed of an Ed25519 signing key. It is not
/// printed.
pub struct SigningKey {
    seed: [u8; 32],
}

/// A 64-byte Ed25519 signature.
#[derive(Clone, Copy, Debug)]
pub struct Signature {
    bytes: [u8; 64],
}

impl View for VerifyingKey {
    type V = Seq<u8>;

    open spec fn view(&self) -> Seq<u8> {
        self.spec_bytes()@
    }
}

impl View for SigningKey {
    type V = Seq<u8>;

    open spec fn view(&self) -> Seq<u8> {
        self.spec_seed()@
    }
}

impl View for Signature {
    type V = Seq<u8>;

    open spec fn view(&self) -> Seq<u8> {
        self.spec_bytes()@
    }
}

impl VerifyingKey {
    /// The key's encoding.
    pub closed spec fn spec_bytes(&self) -> [u8; 32] {
        self.bytes
    }

    pub fn from_bytes(bytes: [u8; 32]) -> (key: Self)
        ensures
            key@ == bytes@,
    {
        VerifyingKey { bytes }
    }

    pub fn as_bytes(&self) -> (bytes: &[u8; 32])
        ensures
            bytes@ == self@,
    {
        &self.bytes
    }

    /// Strict verification of `signature` over `message` under this key.
    pub fn verify_strict(&self, message: &[u8], signature: &Signature) -> (valid: bool)
        ensures
            valid == ed25519_verifies(self@, message@, signature@),
    {
        ed25519_verify_strict(&self.bytes, message, &signature.bytes)
    }
}

impl PartialEq for VerifyingKey {
    fn eq(&self, other: &Self) -> (same: bool) {
        bytes_eq(&self.bytes, &other.bytes)
    }
}

impl vstd::std_specs::cmp::PartialEqSpecImpl for VerifyingKey {
    open spec fn obeys_eq_spec() -> bool {
        true
    }

    open spec fn eq_spec(&self, other: &Self) -> bool {
        self@ == other@
    }
}

impl Clone for SigningKey {
    fn clone(&self) -> (copy: Self)
        ensures
            copy == *self,
    {
        SigningKey { seed: self.seed }
    }
}

impl SigningKey {
    /// The key's seed.
    pub closed spec fn spec_seed(&self) -> [u8; 32] {
        self.seed
    }

    pub fn from_bytes(seed: &[u8; 32]) -> (key: Self)
        ensures
            key@ == seed@,
    {
        SigningKey { seed: *seed }
    }

    /// The public half of this key.
    pub fn verifying_key(&self) -> (key: VerifyingKey)
        ensures
            key@ == ed25519_public_key(self@),
    {
        VerifyingKey { bytes: ed25519_derive_public(&self.seed) }
    }

    /// Signs `message`. The key is left as it was.
    pub fn sign(&mut self, message: &[u8]) -> (signature: Signature)
        ensures
            *final(self) == *old(self),
            signature@ == ed25519_signature(old(self)@, message@),
    {
        Signature { bytes: ed25519_sign(&self.seed, message) }
    }
}

impl Signature {
    /// The signature's bytes.
    pub closed spec fn spec_bytes(&self) -> [u8; 64] {
        self.bytes
    }

    pub fn from_bytes(bytes: &[u8; 64]) -> (signature: Self)
        ensures
            signature@ == bytes@,
    {
        Signature { bytes: *bytes }
    }

    pub fn to_bytes(&self) -> (bytes: [u8; 64])
        ensures
            bytes@ == self@,
    {
        self.bytes
    }
}

} // verus!
