use ledger_sol_core::path::{
    build_sign_payload, encode_path, harden, parse_bip32_path, standard_solana_path, HARDENED_BIT,
};
use ledger_sol_core::LedgerSolError;

#[test]
fn standard_path_matches_hw_app_solana() {
    // m/44'/501'/3'/0' encoded as 4 BE u32 with hardened bit set.
    let path = standard_solana_path(3);
    let encoded = encode_path(&path);
    let expected: Vec<u8> = vec![
        0x04, // 4 components
        0x80, 0x00, 0x00, 0x2C, // 44'
        0x80, 0x00, 0x01, 0xF5, // 501'
        0x80, 0x00, 0x00, 0x03, // 3'
        0x80, 0x00, 0x00, 0x00, // 0'
    ];
    assert_eq!(encoded, expected);
}

#[test]
fn parse_path_accepts_h_and_apostrophe() {
    let a = parse_bip32_path("m/44'/501'/0'/0'").unwrap();
    let b = parse_bip32_path("m/44h/501h/0h/0h").unwrap();
    assert_eq!(a, b);
    assert_eq!(a[0], 44 | HARDENED_BIT);
}

#[test]
fn parse_path_rejects_garbage() {
    assert!(parse_bip32_path("m/abc'/501'").is_err());
}

#[test]
fn empty_path_is_master() {
    let p = parse_bip32_path("m/").unwrap();
    assert!(p.is_empty());
    let enc = encode_path(&p);
    assert_eq!(enc, vec![0]);
}

#[test]
fn sign_payload_layout() {
    let path = vec![harden(44), harden(501), harden(0), harden(0)];
    let msg = vec![0xAAu8, 0xBB, 0xCC];
    let payload = build_sign_payload(&path, &msg);
    // [1, 4, 4× BE u32 = 16, msg.len 3] = 21 bytes
    assert_eq!(payload.len(), 1 + 1 + 16 + 3);
    assert_eq!(payload[0], 1, "num_signers");
    assert_eq!(payload[1], 4, "path_len");
    assert_eq!(&payload[18..], &[0xAA, 0xBB, 0xCC]);
}

fn invalid_path_reason(r: Result<Vec<u32>, LedgerSolError>) -> String {
    match r {
        Err(LedgerSolError::InvalidPath { reason }) => reason,
        other => panic!("expected InvalidPath, got {:?}", other),
    }
}

#[test]
fn harden_sets_the_top_bit() {
    assert_eq!(harden(0), 0x8000_0000);
    assert_eq!(harden(44), 0x8000_002C);
    assert_eq!(harden(0x8000_0001), 0x8000_0001);
}

#[test]
fn parse_path_mixed_and_unhardened_components() {
    assert_eq!(
        parse_bip32_path("m/44'/501'/7/2").unwrap(),
        vec![harden(44), harden(501), 7, 2]
    );
    assert_eq!(parse_bip32_path("44h/1").unwrap(), vec![harden(44), 1]);
}

#[test]
fn parse_path_trims_whitespace_and_accepts_plus_sign() {
    assert_eq!(
        parse_bip32_path("  m/44'/+501'\t\n").unwrap(),
        vec![harden(44), harden(501)]
    );
    assert_eq!(parse_bip32_path("\u{3000}m/0007\u{a0}").unwrap(), vec![7]);
}

#[test]
fn parse_path_empty_forms_are_master() {
    assert!(parse_bip32_path("").unwrap().is_empty());
    assert!(parse_bip32_path("   ").unwrap().is_empty());
    assert!(parse_bip32_path(" m/ ").unwrap().is_empty());
}

#[test]
fn parse_path_reports_first_bad_component() {
    assert_eq!(
        invalid_path_reason(parse_bip32_path("m/44'/x/y")),
        "'x' is not a valid path component"
    );
    assert_eq!(
        invalid_path_reason(parse_bip32_path("m/44'//0'")),
        "'' is not a valid path component"
    );
    assert_eq!(
        invalid_path_reason(parse_bip32_path("m/44'/")),
        "'' is not a valid path component"
    );
    assert_eq!(
        invalid_path_reason(parse_bip32_path("m/-1")),
        "'-1' is not a valid path component"
    );
    assert_eq!(
        invalid_path_reason(parse_bip32_path("m/+'")),
        "'+'' is not a valid path component"
    );
}

#[test]
fn parse_path_range_errors() {
    assert_eq!(
        invalid_path_reason(parse_bip32_path("m/2147483648'")),
        "component 2147483648 exceeds 31-bit range"
    );
    assert_eq!(
        invalid_path_reason(parse_bip32_path("m/4294967295")),
        "component 4294967295 exceeds 31-bit range"
    );
    assert_eq!(
        invalid_path_reason(parse_bip32_path("m/4294967296")),
        "'4294967296' is not a valid path component"
    );
    assert_eq!(parse_bip32_path("m/2147483647").unwrap(), vec![2147483647]);
    assert_eq!(parse_bip32_path("m/00000000000000000001").unwrap(), vec![1]);
}

#[test]
fn encode_path_count_byte_wraps() {
    let comps: Vec<u32> = (0..257).collect();
    let enc = encode_path(&comps);
    assert_eq!(enc[0], 1);
    assert_eq!(enc.len(), 1 + 4 * 257);
    assert_eq!(&enc[enc.len() - 4..], &[0, 0, 1, 0]);
}

#[test]
fn standard_path_text_parses_to_standard_path() {
    for account in [0u32, 3, 9, 10, 255, 2147483647] {
        let text = format!("m/44'/501'/{}'/0'", account);
        assert_eq!(parse_bip32_path(&text).unwrap(), standard_solana_path(account));
    }
    assert!(parse_bip32_path("m/44'/501'/2147483648'/0'").is_err());
}
