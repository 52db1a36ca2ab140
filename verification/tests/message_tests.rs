use ed25519_dalek::{Signer, SigningKey};
use ledger_sol_core::message::{build_envelope, message_format};
use ledger_sol_core::{
    sol_hardware_signed_message, sol_offchain_envelope, sol_sign_message, sol_verify_message,
    SolanaMsgError,
};

// A fixed 32-byte ed25519 seed -> deterministic address + round-trip.
fn seed() -> Vec<u8> {
    vec![0x11u8; 32]
}

#[test]
fn sign_then_verify_round_trips() {
    let signed = sol_sign_message(seed(), "hello solana".into()).unwrap();
    // base58 ed25519 pubkey + 64-byte sig.
    assert!(!signed.address.is_empty());
    assert!(!signed.signature.is_empty());
    assert!(sol_verify_message(
        signed.address.clone(),
        "hello solana".into(),
        signed.signature.clone()
    ));
    // Tampered message must fail.
    assert!(!sol_verify_message(
        signed.address,
        "hello solan".into(),
        signed.signature
    ));
}

#[test]
fn hardware_envelope_matches_software() {
    // The bytes a device would sign must equal what the software path signs.
    let seed_arr: [u8; 32] = seed().as_slice().try_into().unwrap();
    let sk = SigningKey::from_bytes(&seed_arr);
    let pubkey = sk.verifying_key().to_bytes();
    let env = sol_offchain_envelope("attest".into(), pubkey.to_vec()).unwrap();
    // Signing that envelope by hand == sol_sign_message's signature.
    let want = sol_sign_message(seed(), "attest".into()).unwrap();
    let got = sol_hardware_signed_message(pubkey.to_vec(), sk.sign(&env).to_bytes().to_vec())
        .unwrap();
    assert_eq!(got.address, want.address);
    assert_eq!(got.signature, want.signature);
}

#[test]
fn envelope_layout() {
    let pk = [0x22u8; 32];
    let env = build_envelope(b"hi", &pk).unwrap();
    assert_eq!(&env[..16], b"\xffsolana offchain");
    assert_eq!(env[16], 0); // version
    assert_eq!(&env[17..49], &[0u8; 32]); // app domain
    assert_eq!(env[49], 0); // format ASCII
    assert_eq!(env[50], 1); // signer count
    assert_eq!(&env[51..83], &pk); // signer
    assert_eq!(&env[83..85], &[2, 0]); // len = 2, LE
    assert_eq!(&env[85..], b"hi");
}

#[test]
fn verify_rejects_garbage() {
    assert!(!sol_verify_message(
        "11111111111111111111111111111111".into(),
        "x".into(),
        "deadbeef".into()
    ));
}

#[test]
fn message_format_ascii_and_utf8() {
    assert_eq!(message_format(b""), 0);
    assert_eq!(message_format(b" ~hello"), 0);
    assert_eq!(message_format(b"tab\there"), 1);
    assert_eq!(message_format("caf\u{e9}".as_bytes()), 1);
    assert_eq!(message_format(&[0x7f]), 1);
}

#[test]
fn envelope_length_limits() {
    let pk = [0x33u8; 32];
    let max = vec![b'a'; 1232 - 85];
    let env = build_envelope(&max, &pk).unwrap();
    assert_eq!(env.len(), 1232);
    assert_eq!(&env[83..85], &[0x7b, 0x04]); // 1147 little-endian
    let over = vec![b'a'; 1232 - 84];
    assert_eq!(build_envelope(&over, &pk).unwrap_err(), SolanaMsgError::MessageTooLong);
    let huge = vec![b'a'; 70000];
    assert_eq!(build_envelope(&huge, &pk).unwrap_err(), SolanaMsgError::MessageTooLong);
}

#[test]
fn utf8_message_envelope_uses_format_one() {
    let pk = [0x44u8; 32];
    let env = sol_offchain_envelope("h\u{e9}".into(), pk.to_vec()).unwrap();
    assert_eq!(env[49], 1);
    assert_eq!(&env[83..85], &[3, 0]);
    assert_eq!(&env[85..], &[0x68, 0xc3, 0xa9]);
}

#[test]
fn sign_message_errors() {
    assert_eq!(
        sol_sign_message(vec![1u8; 31], "x".into()).unwrap_err(),
        SolanaMsgError::InvalidKey
    );
    let long: String = std::iter::repeat('a').take(1148).collect();
    assert_eq!(
        sol_sign_message(seed(), long).unwrap_err(),
        SolanaMsgError::MessageTooLong
    );
    assert_eq!(
        sol_offchain_envelope("x".into(), vec![0u8; 33]).unwrap_err(),
        SolanaMsgError::InvalidPubkey
    );
}

#[test]
fn hardware_signed_message_errors_and_encoding() {
    assert_eq!(
        sol_hardware_signed_message(vec![0u8; 31], vec![0u8; 64]).unwrap_err(),
        SolanaMsgError::InvalidPubkey
    );
    assert_eq!(
        sol_hardware_signed_message(vec![0u8; 32], vec![0u8; 63]).unwrap_err(),
        SolanaMsgError::SigningFailed
    );
    let s = sol_hardware_signed_message(vec![0u8; 32], vec![0u8; 64]).unwrap();
    assert_eq!(s.address, "11111111111111111111111111111111");
    assert_eq!(s.signature, "1".repeat(64));
}

#[test]
fn known_address_of_seed() {
    // The address is the base58 form of the ed25519 public key of the seed.
    let seed_arr = [0x11u8; 32];
    let pk = SigningKey::from_bytes(&seed_arr).verifying_key().to_bytes();
    let signed = sol_sign_message(seed(), "m".into()).unwrap();
    assert_eq!(signed.address, bs58::encode(pk).into_string());
    assert_ne!(signed.address.as_bytes(), &pk[..]);
}

#[test]
fn verify_ignores_surrounding_whitespace() {
    let signed = sol_sign_message(seed(), "ws".into()).unwrap();
    assert!(sol_verify_message(
        format!("  {}\n", signed.address),
        "ws".into(),
        format!("\t{} ", signed.signature)
    ));
    // A signature by another key does not verify.
    let other = sol_sign_message(vec![0x22u8; 32], "ws".into()).unwrap();
    assert!(!sol_verify_message(signed.address, "ws".into(), other.signature));
}
