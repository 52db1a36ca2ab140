//! Records returned by the Ledger client.

use vstd::prelude::*;

verus! {

/// Public address record: the raw 32-byte Ed25519 public key and its base58
/// form, the user-visible Solana address.
#[derive(Debug, Clone)]
pub struct SolanaAddress {
    /// Raw 32-byte Ed25519 public key.
    pub pubkey: Vec<u8>,
    /// Base58 representation of `pubkey`.
    pub base58: String,
}

/// A 64-byte Ed25519 signature and its base58 form, as Solana CLI and
/// explorers print it.
#[derive(Debug, Clone)]
pub struct SolanaSignature {
    /// Raw 64-byte Ed25519 signature.
    pub bytes: Vec<u8>,
    /// Base58 representation of `bytes`.
    pub base58: String,
}

} // verus!
