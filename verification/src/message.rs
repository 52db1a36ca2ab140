//! Solana off-chain message signing (the SIMD-0048 "Off-Chain Message"
//! envelope that the Ledger and Trezor apps sign), its software signing and
//! keyless verification, and the assembly of hardware results.
//!
//! The envelope is: the 16-byte signing domain `\xffsolana offchain`, version
//! 0, a 32-byte all-zero application domain, the message format (0 = ASCII,
//! 1 = UTF-8), a signer count of 1, the signer's 32-byte public key, the
//! message length (u16 little-endian) and the message.

use vstd::prelude::*;
use crate::base58::{base58_decoding, base58_encoding, bs58_decode, bs58_encode, lemma_base58_round_trip};
use crate::bytes::{push_all, to_array32, to_array64};
use crate::ed25519::{
    ed25519_key_is_valid, ed25519_key_valid, ed25519_public_key, ed25519_public_key_of,
    ed25519_sign, ed25519_signature_checks, ed25519_signature_of, ed25519_verify,
};
use crate::text::{spec_trim, trim_whitespace};
use vstd::utf8::encode_utf8;

verus! {

/// Largest envelope both devices accept in the short form.
pub const MAX_ENVELOPE_LEN: usize = 1232;

/// Length of the envelope before the message.
pub const ENVELOPE_HEADER_LEN: usize = 85;

/// A signed off-chain message: the base58 address (public key) it is bound
/// to and the base58 64-byte signature.
#[derive(Debug, Clone)]
pub struct SolanaSignedMessage {
    /// Base58 ed25519 public key the signature is bound to.
    pub address: String,
    /// Base58-encoded 64-byte ed25519 signature.
    pub signature: String,
}

impl View for SolanaSignedMessage {
    type V = (Seq<char>, Seq<char>);

    open spec fn view(&self) -> (Seq<char>, Seq<char>) {
        (self.address@, self.signature@)
    }
}

/// Errors of off-chain message signing.
#[derive(Debug, Clone, Copy, PartialEq, Eq, Structural)]
pub enum SolanaMsgError {
    /// The secret seed is not 32 bytes.
    InvalidKey,
    /// The signer public key is not 32 bytes.
    InvalidPubkey,
    /// The envelope would exceed the short form.
    MessageTooLong,
    /// The signature is not 64 bytes.
    SigningFailed,
}

/// The 16-byte signing domain `\xffsolana offchain`.
pub open spec fn signing_domain() -> Seq<u8> {
    seq![
        0xffu8,
        0x73u8,
        0x6fu8,
        0x6cu8,
        0x61u8,
        0x6eu8,
        0x61u8,
        0x20u8,
        0x6fu8,
        0x66u8,
        0x66u8,
        0x63u8,
        0x68u8,
        0x61u8,
        0x69u8,
        0x6eu8,
    ]
}

/// 0 when every byte is printable ASCII (0x20..=0x7e), else 1 (UTF-8).
pub open spec fn spec_message_format(message: Seq<u8>) -> u8 {
    if forall|i: int| 0 <= i < message.len() ==> 0x20 <= #[trigger] message[i] <= 0x7e {
        0
    } else {
        1
    }
}

/// The off-chain message envelope of `message` for one signer.
pub open spec fn spec_envelope(message: Seq<u8>, signer: Seq<u8>) -> Seq<u8> {
    signing_domain() + seq![0u8] + Seq::new(32, |i: int| 0u8) + seq![
        spec_message_format(message),
        1u8,
    ] + signer + seq![(message.len() % 256) as u8, (message.len() / 256) as u8] + message
}

/// Whether the envelope of `message` stays within the short form.
pub open spec fn envelope_fits(message: Seq<u8>) -> bool {
    ENVELOPE_HEADER_LEN + message.len() <= MAX_ENVELOPE_LEN
}

/// The model of an envelope result.
pub open spec fn bytes_result(r: Result<Vec<u8>, SolanaMsgError>) -> Result<Seq<u8>, SolanaMsgError> {
    match r {
        Ok(v) => Ok(v@),
        Err(e) => Err(e),
    }
}

/// The model of a signed-message result.
pub open spec fn signed_result(r: Result<SolanaSignedMessage, SolanaMsgError>) -> Result<
    (Seq<char>, Seq<char>),
    SolanaMsgError,
> {
    match r {
        Ok(s) => Ok(s@),
        Err(e) => Err(e),
    }
}

/// Law: the format byte is 0 exactly when every byte is printable ASCII
/// (0x20..=0x7e) and 1 exactly when some byte is not (a control character
/// such as a line feed, or a byte of a multi-byte UTF-8 sequence).
pub proof fn lemma_message_format_printable(m: Seq<u8>)
    ensures
        spec_message_format(m) == 0 <==> forall|i: int| 0 <= i < m.len() ==> 0x20 <= #[trigger] m[i] <= 0x7e,
        spec_message_format(m) == 1 <==> exists|i: int| 0 <= i < m.len() && !(0x20 <= #[trigger] m[i] <= 0x7e),
        spec_message_format(m) == 0 || spec_message_format(m) == 1,
{
}

/// Law: the layout of the envelope, byte by byte: the 16-byte signing domain
/// `\xffsolana offchain`, version 0, 32 zero bytes of application domain, the
/// format byte (0 exactly for printable ASCII), signer count 1, the signer,
/// the message length little-endian, then the message itself.
pub proof fn lemma_envelope_layout(m: Seq<u8>, signer: Seq<u8>)
    requires
        signer.len() == 32,
        m.len() <= 0xffff,
    ensures
        ({
            let e = spec_envelope(m, signer);
            &&& e.len() == 85 + m.len()
            &&& e.subrange(0, 16) == seq![0xffu8, 0x73u8, 0x6fu8, 0x6cu8, 0x61u8, 0x6eu8, 0x61u8,
                0x20u8, 0x6fu8, 0x66u8, 0x66u8, 0x63u8, 0x68u8, 0x61u8, 0x69u8, 0x6eu8]
            &&& e[16] == 0
            &&& forall|i: int| 17 <= i < 49 ==> #[trigger] e[i] == 0
            &&& (e[49] == 0 <==> forall|i: int| 0 <= i < m.len() ==> 0x20 <= #[trigger] m[i] <= 0x7e)
            &&& (e[49] == 1 <==> exists|i: int| 0 <= i < m.len() && !(0x20 <= #[trigger] m[i] <= 0x7e))
            &&& e[50] == 1
            &&& e.subrange(51, 83) == signer
            &&& e[83] as int + 256 * (e[84] as int) == m.len()
            &&& e.subrange(85, e.len() as int) == m
        }),
{
    let e = spec_envelope(m, signer);
    lemma_message_format_printable(m);
    assert(e.subrange(0, 16) =~= signing_domain());
    assert(e.subrange(51, 83) =~= signer);
    assert(e.subrange(85, e.len() as int) =~= m);
    assert(e[49] == spec_message_format(m));
}

/// The message format byte: 0 for printable ASCII, 1 for UTF-8.
pub fn message_format(message: &[u8]) -> (f: u8)
    ensures
        f == spec_message_format(message@),
        f == 0 <==> forall|i: int| 0 <= i < message@.len() ==> 0x20 <= #[trigger] message@[i] <= 0x7e,
        f == 1 <==> exists|i: int| 0 <= i < message@.len() && !(0x20 <= #[trigger] message@[i] <= 0x7e),
{
    proof {
        lemma_message_format_printable(message@);
    }
    for i in 0..message.len()
        invariant
            forall|j: int| 0 <= j < i ==> 0x20 <= #[trigger] message@[j] <= 0x7e,
    {
        if message[i] < 0x20 || message[i] > 0x7e {
            return 1;
        }
    }
    0
}

fn push_signing_domain(out: &mut Vec<u8>)
    ensures
        final(out)@ == old(out)@ + signing_domain(),
{
    let domain: Vec<u8> = vec![
        0xff,
        0x73,
        0x6f,
        0x6c,
        0x61,
        0x6e,
        0x61,
        0x20,
        0x6f,
        0x66,
        0x66,
        0x63,
        0x68,
        0x61,
        0x69,
        0x6e,
    ];
    assert(domain@ =~= signing_domain());
    push_all(out, domain.as_slice());
}

/// Builds the off-chain message envelope for a single signer: the exact
/// bytes that software and both devices sign. A message whose envelope would
/// exceed 1232 bytes is refused.
pub fn build_envelope(message: &[u8], signer_pubkey: &[u8; 32]) -> (r: Result<
    Vec<u8>,
    SolanaMsgError,
>)
    ensures
        envelope_fits(message@) ==> bytes_result(r) == Ok::<Seq<u8>, SolanaMsgError>(
            spec_envelope(message@, signer_pubkey@),
        ),
        !envelope_fits(message@) ==> r == Err::<Vec<u8>, SolanaMsgError>(
            SolanaMsgError::MessageTooLong,
        ),
{
    let len = message.len();
    if len > 0xffff {
        return Err(SolanaMsgError::MessageTooLong);
    }
    let mut v: Vec<u8> = Vec::new();
    push_signing_domain(&mut v);
    v.push(0);
    let zeros: Vec<u8> = vec![0u8; 32];
    assert(zeros@ =~= Seq::new(32, |i: int| 0u8));
    push_all(&mut v, zeros.as_slice());
    v.push(message_format(message));
    v.push(1);
    push_all(&mut v, signer_pubkey);
    let lo = (len % 256) as u8;
    let hi = (len / 256) as u8;
    v.push(lo);
    v.push(hi);
    push_all(&mut v, message);
    assert(v@ =~= spec_envelope(message@, signer_pubkey@));
    if v.len() > MAX_ENVELOPE_LEN {
        return Err(SolanaMsgError::MessageTooLong);
    }
    Ok(v)
}

/// The result of signing `message` (as text) with a secret seed, in the
/// software flow.
pub open spec fn spec_sol_sign_message(seed: Seq<u8>, message: Seq<char>) -> Result<
    (Seq<char>, Seq<char>),
    SolanaMsgError,
> {
    let bytes = encode_utf8(message);
    let pk = ed25519_public_key_of(seed);
    if seed.len() != 32 {
        Err(SolanaMsgError::InvalidKey)
    } else if !envelope_fits(bytes) {
        Err(SolanaMsgError::MessageTooLong)
    } else {
        Ok(
            (
                base58_encoding(pk),
                base58_encoding(ed25519_signature_of(seed, spec_envelope(bytes, pk))),
            ),
        )
    }
}

/// Whether `signature` (base58) is a valid signature of the envelope of
/// `message` for `address` (base58 public key); surrounding whitespace of
/// the address and signature is ignored.
pub open spec fn spec_sol_verify_message(
    address: Seq<char>,
    message: Seq<char>,
    signature: Seq<char>,
) -> bool {
    let pk = base58_decoding(spec_trim(address));
    let sig = base58_decoding(spec_trim(signature));
    let bytes = encode_utf8(message);
    &&& pk is Some
    &&& pk->0.len() == 32
    &&& ed25519_key_valid(pk->0)
    &&& sig is Some
    &&& sig->0.len() == 64
    &&& envelope_fits(bytes)
    &&& ed25519_signature_checks(pk->0, spec_envelope(bytes, pk->0), sig->0)
}

/// Signs `message` (software path) with the raw 32-byte ed25519 secret seed:
/// derives the public key, builds the envelope for it and signs that. What
/// it returns verifies with `sol_verify_message`.
pub fn sol_sign_message(secret_seed: Vec<u8>, message: String) -> (r: Result<
    SolanaSignedMessage,
    SolanaMsgError,
>)
    ensures
        signed_result(r) == spec_sol_sign_message(secret_seed@, message@),
        r matches Ok(s) ==> spec_sol_verify_message(s.address@, message@, s.signature@),
{
    if secret_seed.len() != 32 {
        return Err(SolanaMsgError::InvalidKey);
    }
    let seed = to_array32(secret_seed.as_slice());
    let pubkey = ed25519_public_key(&seed);
    let bytes = message.as_str().as_bytes();
    let envelope = match build_envelope(bytes, &pubkey) {
        Ok(e) => e,
        Err(e) => {
            return Err(e);
        },
    };
    let sig = ed25519_sign(&seed, envelope.as_slice());
    let address = bs58_encode(&pubkey);
    let signature = bs58_encode(&sig);
    proof {
        lemma_base58_round_trip(pubkey@);
        lemma_base58_round_trip(sig@);
    }
    Ok(SolanaSignedMessage { address, signature })
}

fn decode_fixed(text: &str, n: usize) -> (r: Option<Vec<u8>>)
    ensures
        r matches Some(v) ==> base58_decoding(spec_trim(text@)) == Some(v@) && v@.len() == n,
        r is None ==> !(base58_decoding(spec_trim(text@)) matches Some(v) && v.len() == n),
{
    let trimmed = trim_whitespace(text);
    match bs58_decode(trimmed) {
        Some(v) => {
            if v.len() == n {
                Some(v)
            } else {
                None
            }
        },
        None => None,
    }
}

fn verify_inner(address: &str, message: &str, signature: &str) -> (r: Option<bool>)
    ensures
        r matches Some(b) ==> b == spec_sol_verify_message(address@, message@, signature@),
        r is None ==> !spec_sol_verify_message(address@, message@, signature@),
{
    let pk_bytes = match decode_fixed(address, 32) {
        Some(v) => v,
        None => {
            return None;
        },
    };
    let pk = to_array32(pk_bytes.as_slice());
    if !ed25519_key_is_valid(&pk) {
        return None;
    }
    let sig_bytes = match decode_fixed(signature, 64) {
        Some(v) => v,
        None => {
            return None;
        },
    };
    let sig = to_array64(sig_bytes.as_slice());
    let envelope = match build_envelope(message.as_bytes(), &pk) {
        Ok(e) => e,
        Err(_) => {
            return None;
        },
    };
    Some(ed25519_verify(&pk, envelope.as_slice(), &sig))
}

/// Law (soundness): a message verifies only when the decoded signature is
/// an ed25519 signature, under the decoded address, of the off-chain envelope
/// of the message for that address (never of the raw message bytes or of
/// anything else).
pub proof fn lemma_verify_sound(address: Seq<char>, message: Seq<char>, signature: Seq<char>)
    requires
        spec_sol_verify_message(address, message, signature),
    ensures
        base58_decoding(spec_trim(address)) is Some,
        base58_decoding(spec_trim(signature)) is Some,
        ({
            let pk = base58_decoding(spec_trim(address))->0;
            let sig = base58_decoding(spec_trim(signature))->0;
            &&& pk.len() == 32
            &&& sig.len() == 64
            &&& ed25519_signature_checks(pk, spec_envelope(encode_utf8(message), pk), sig)
        }),
{
}

/// Law (completeness): the base58 forms of a valid 32-byte public key and of
/// a 64-byte signature that ed25519 accepts over the envelope of a message
/// (one that fits the short form) verify.
pub proof fn lemma_verify_complete(pk: Seq<u8>, sig: Seq<u8>, message: Seq<char>)
    requires
        pk.len() == 32,
        sig.len() == 64,
        ed25519_key_valid(pk),
        envelope_fits(encode_utf8(message)),
        ed25519_signature_checks(pk, spec_envelope(encode_utf8(message), pk), sig),
    ensures
        spec_sol_verify_message(base58_encoding(pk), message, base58_encoding(sig)),
{
    lemma_base58_round_trip(pk);
    lemma_base58_round_trip(sig);
}

/// Verifies an off-chain message signature against the base58 address
/// (keyless): rebuilds the envelope from the decoded public key and the
/// message, and checks the ed25519 signature. Anything malformed is `false`.
pub fn sol_verify_message(address: String, message: String, signature: String) -> (b: bool)
    ensures
        b == spec_sol_verify_message(address@, message@, signature@),
        b ==> ({
            let pk = base58_decoding(spec_trim(address@));
            let sig = base58_decoding(spec_trim(signature@));
            &&& pk is Some && sig is Some
            &&& pk->0.len() == 32 && sig->0.len() == 64
            &&& ed25519_signature_checks(pk->0, spec_envelope(encode_utf8(message@), pk->0), sig->0)
        }),
{
    proof {
        if spec_sol_verify_message(address@, message@, signature@) {
            lemma_verify_sound(address@, message@, signature@);
        }
    }
    match verify_inner(address.as_str(), message.as_str(), signature.as_str()) {
        Some(b) => b,
        None => false,
    }
}

/// The envelope a hardware device signs for `message` and its public key.
pub open spec fn spec_sol_offchain_envelope(message: Seq<char>, signer: Seq<u8>) -> Result<
    Seq<u8>,
    SolanaMsgError,
> {
    if signer.len() != 32 {
        Err(SolanaMsgError::InvalidPubkey)
    } else if !envelope_fits(encode_utf8(message)) {
        Err(SolanaMsgError::MessageTooLong)
    } else {
        Ok(spec_envelope(encode_utf8(message), signer))
    }
}

/// Builds the exact envelope bytes the host sends to a hardware device,
/// given the device's 32-byte ed25519 public key.
pub fn sol_offchain_envelope(message: String, signer_pubkey: Vec<u8>) -> (r: Result<
    Vec<u8>,
    SolanaMsgError,
>)
    ensures
        bytes_result(r) == spec_sol_offchain_envelope(message@, signer_pubkey@),
{
    if signer_pubkey.len() != 32 {
        return Err(SolanaMsgError::InvalidPubkey);
    }
    let pk = to_array32(signer_pubkey.as_slice());
    build_envelope(message.as_str().as_bytes(), &pk)
}

/// The signed message assembled from a device's public key and signature.
pub open spec fn spec_sol_hardware_signed_message(signer: Seq<u8>, signature: Seq<u8>) -> Result<
    (Seq<char>, Seq<char>),
    SolanaMsgError,
> {
    if signer.len() != 32 {
        Err(SolanaMsgError::InvalidPubkey)
    } else if signature.len() != 64 {
        Err(SolanaMsgError::SigningFailed)
    } else {
        Ok((base58_encoding(signer), base58_encoding(signature)))
    }
}

/// Assembles a signed message from a hardware device's output: its 32-byte
/// public key and the 64-byte signature it returned, base58-encoded as in
/// the software path.
pub fn sol_hardware_signed_message(signer_pubkey: Vec<u8>, signature: Vec<u8>) -> (r: Result<
    SolanaSignedMessage,
    SolanaMsgError,
>)
    ensures
        signed_result(r) == spec_sol_hardware_signed_message(signer_pubkey@, signature@),
{
    if signer_pubkey.len() != 32 {
        return Err(SolanaMsgError::InvalidPubkey);
    }
    if signature.len() != 64 {
        return Err(SolanaMsgError::SigningFailed);
    }
    Ok(
        SolanaSignedMessage {
            address: bs58_encode(signer_pubkey.as_slice()),
            signature: bs58_encode(signature.as_slice()),
        },
    )
}

/// Law: the hardware flow gives what the software flow gives. A device whose
/// key is the seed's public key, signing the envelope that
/// `sol_offchain_envelope` builds for it, yields through
/// `sol_hardware_signed_message` exactly the result of `sol_sign_message`.
pub proof fn lemma_hardware_matches_software(seed: Seq<u8>, message: Seq<char>)
    requires
        seed.len() == 32,
        ed25519_public_key_of(seed).len() == 32,
        envelope_fits(encode_utf8(message)) ==> ed25519_signature_of(
            seed,
            spec_envelope(encode_utf8(message), ed25519_public_key_of(seed)),
        ).len() == 64,
    ensures
        ({
            let pk = ed25519_public_key_of(seed);
            match spec_sol_offchain_envelope(message, pk) {
                Ok(envelope) => spec_sol_hardware_signed_message(
                    pk,
                    ed25519_signature_of(seed, envelope),
                ) == spec_sol_sign_message(seed, message),
                Err(e) => spec_sol_sign_message(seed, message) == Err::<
                    (Seq<char>, Seq<char>),
                    SolanaMsgError,
                >(e),
            }
        }),
{
}

} // verus!
