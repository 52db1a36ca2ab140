//! Errors of the Ledger protocol layer.

use vstd::prelude::*;
use crate::text::{push_hex, spec_hex};

verus! {

/// Errors surfaced by the Ledger client. Each variant but `UserCanceled`
/// carries a human-readable `reason`.
#[derive(Debug, Clone)]
pub enum LedgerSolError {
    /// The transport failed (disconnect, timeout, device unplugged, ...).
    Transport { reason: String },
    /// The Solana app answered with a status word other than success
    /// (0x6985, "user denied", is `UserCanceled` instead).
    DeviceRejected { status_word: u16, reason: String },
    /// A derivation path argument could not be parsed.
    InvalidPath { reason: String },
    /// A transaction message argument was malformed.
    InvalidMessage { reason: String },
    /// Anything unexpected in the exchange not covered above.
    Protocol { reason: String },
    /// The user pressed reject on the device (status word 0x6985).
    UserCanceled,
}

/// The mathematical model of a `LedgerSolError`: reasons as character
/// sequences.
pub ghost enum LedgerSolErrorModel {
    Transport { reason: Seq<char> },
    DeviceRejected { status_word: u16, reason: Seq<char> },
    InvalidPath { reason: Seq<char> },
    InvalidMessage { reason: Seq<char> },
    Protocol { reason: Seq<char> },
    UserCanceled,
}

impl View for LedgerSolError {
    type V = LedgerSolErrorModel;

    open spec fn view(&self) -> LedgerSolErrorModel {
        match self {
            LedgerSolError::Transport { reason } => LedgerSolErrorModel::Transport {
                reason: reason@,
            },
            LedgerSolError::DeviceRejected { status_word, reason } =>
                LedgerSolErrorModel::DeviceRejected { status_word: *status_word, reason: reason@ },
            LedgerSolError::InvalidPath { reason } => LedgerSolErrorModel::InvalidPath {
                reason: reason@,
            },
            LedgerSolError::InvalidMessage { reason } => LedgerSolErrorModel::InvalidMessage {
                reason: reason@,
            },
            LedgerSolError::Protocol { reason } => LedgerSolErrorModel::Protocol {
                reason: reason@,
            },
            LedgerSolError::UserCanceled => LedgerSolErrorModel::UserCanceled,
        }
    }
}

/// Status word with which the Solana app reports that the user refused.
pub const SW_USER_DENIED: u16 = 0x6985;

/// The error for a non-success status word answered to `command_label`.
pub open spec fn spec_from_status(status_word: u16, command_label: Seq<char>) -> LedgerSolErrorModel {
    if status_word == SW_USER_DENIED {
        LedgerSolErrorModel::UserCanceled
    } else {
        LedgerSolErrorModel::DeviceRejected {
            status_word,
            reason: command_label + ": device returned 0x"@ + spec_hex(status_word as nat, 4),
        }
    }
}

/// Law: a status word becomes `UserCanceled` exactly when it is 0x6985;
/// any other status word is kept in a `DeviceRejected` whose reason starts
/// with the command's label.
pub proof fn lemma_from_status(status_word: u16, command_label: Seq<char>)
    ensures
        (spec_from_status(status_word, command_label) == LedgerSolErrorModel::UserCanceled)
            <==> status_word == 0x6985,
        status_word != 0x6985 ==> (spec_from_status(status_word, command_label) matches
            LedgerSolErrorModel::DeviceRejected { status_word: sw, reason } && sw == status_word
            && reason.subrange(0, command_label.len() as int) == command_label),
{
    if status_word != 0x6985 {
        let r = command_label + ": device returned 0x"@ + spec_hex(status_word as nat, 4);
        assert(r.subrange(0, command_label.len() as int) =~= command_label);
    }
}

impl LedgerSolError {
    /// A `Protocol` error with the given reason.
    pub fn protocol(msg: String) -> (e: Self)
        ensures
            e@ == (LedgerSolErrorModel::Protocol { reason: msg@ }),
    {
        LedgerSolError::Protocol { reason: msg }
    }

    /// An `InvalidPath` error with the given reason.
    pub fn invalid_path(msg: String) -> (e: Self)
        ensures
            e@ == (LedgerSolErrorModel::InvalidPath { reason: msg@ }),
    {
        LedgerSolError::InvalidPath { reason: msg }
    }

    /// An `InvalidMessage` error with the given reason.
    pub fn invalid_message(msg: String) -> (e: Self)
        ensures
            e@ == (LedgerSolErrorModel::InvalidMessage { reason: msg@ }),
    {
        LedgerSolError::InvalidMessage { reason: msg }
    }

    /// Maps a non-success status word to an error: 0x6985 is the user's
    /// refusal, any other status word is kept in `DeviceRejected`.
    pub fn from_status(status_word: u16, command_label: &str) -> (e: Self)
        ensures
            e@ == spec_from_status(status_word, command_label@),
    {
        if status_word == SW_USER_DENIED {
            LedgerSolError::UserCanceled
        } else {
            let mut reason = String::from_str(command_label);
            reason.append(": device returned 0x");
            push_hex(&mut reason, status_word as u64, 4);
            LedgerSolError::DeviceRejected { status_word, reason }
        }
    }
}

} // verus!
