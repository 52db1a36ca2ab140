//! Ed25519 key derivation, signing and verification, made by the
//! `ed25519-dalek` crate (RFC 8032; signing is deterministic).

use vstd::prelude::*;
use ed25519_dalek::{Signature, Signer, SigningKey, Verifier, VerifyingKey};

verus! {

/// The public key that `ed25519-dalek` derives from a 32-byte secret seed.
pub uninterp spec fn ed25519_public_key_of(seed: Seq<u8>) -> Seq<u8>;

/// The signature that `ed25519-dalek` makes of `message` with the key of a
/// 32-byte secret seed.
pub uninterp spec fn ed25519_signature_of(seed: Seq<u8>, message: Seq<u8>) -> Seq<u8>;

/// Whether `ed25519-dalek` accepts 32 bytes as a public key (they decompress
/// to a curve point).
pub uninterp spec fn ed25519_key_valid(public_key: Seq<u8>) -> bool;

/// Whether `ed25519-dalek` verifies `signature` of `message` under
/// `public_key`.
pub uninterp spec fn ed25519_signature_checks(
    public_key: Seq<u8>,
    message: Seq<u8>,
    signature: Seq<u8>,
) -> bool;

/// `SigningKey::verifying_key`, from the seed's bytes to the public key's
/// bytes. Claims: the result is the derived key of the seed, and it is a
/// point that `VerifyingKey::from_bytes` accepts (a derived key is a valid
/// compressed point).
#[verifier::external_body]
pub(crate) fn ed25519_public_key(seed: &[u8; 32]) -> (pk: [u8; 32])
    ensures
        pk@ == ed25519_public_key_of(seed@),
        ed25519_key_valid(pk@),
{
    SigningKey::from_bytes(seed).verifying_key().to_bytes()
}

/// `Signer::sign` of `SigningKey`, from the seed's bytes to the signature's
/// bytes. Claims: the result is the deterministic signature of the message,
/// and verification with the derived public key accepts it (RFC 8032
/// correctness; the signature's scalar is canonical).
#[verifier::external_body]
pub(crate) fn ed25519_sign(seed: &[u8; 32], message: &[u8]) -> (sig: [u8; 64])
    ensures
        sig@ == ed25519_signature_of(seed@, message@),
        ed25519_signature_checks(ed25519_public_key_of(seed@), message@, sig@),
{
    SigningKey::from_bytes(seed).sign(message).to_bytes()
}

/// `VerifyingKey::from_bytes`, reduced to whether it succeeds.
#[verifier::external_body]
pub(crate) fn ed25519_key_is_valid(public_key: &[u8; 32]) -> (b: bool)
    ensures
        b == ed25519_key_valid(public_key@),
{
    VerifyingKey::from_bytes(public_key).is_ok()
}

/// `Verifier::verify` of `VerifyingKey` (the key parsed from its bytes, the
/// signature from its 64 bytes), reduced to whether it succeeds.
#[verifier::external_body]
pub(crate) fn ed25519_verify(public_key: &[u8; 32], message: &[u8], signature: &[u8; 64]) -> (b:
    bool)
    requires
        ed25519_key_valid(public_key@),
    ensures
        b == ed25519_signature_checks(public_key@, message@, signature@),
{
    match VerifyingKey::from_bytes(public_key) {
        Ok(vk) => vk.verify(message, &Signature::from_bytes(signature)).is_ok(),
        Err(_) => false,
    }
}

} // verus!
