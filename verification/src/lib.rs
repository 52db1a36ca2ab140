//! Ledger Solana app protocol core: BIP-32 path handling, APDU framing and
//! chunking, response decoding, and the off-chain message envelope with its
//! ed25519 sign / verify flows.

pub mod apdu;
pub mod base58;
pub mod bytes;
pub mod ed25519;
pub mod error;
pub mod message;
pub mod path;
pub mod text;
pub mod types;

pub use error::LedgerSolError;
pub use message::{
    sol_hardware_signed_message, sol_offchain_envelope, sol_sign_message, sol_verify_message,
    SolanaMsgError, SolanaSignedMessage,
};
pub use types::{SolanaAddress, SolanaSignature};
