use ledger_sol_core::apdu::{
    address_apdu, app_configuration_apdu, build_apdu, check_response, chunked_apdus,
    parse_address_response, parse_app_configuration, parse_signature_response, sign_exchange,
    ChunkedExchange, CLA, INS_GET_PUBKEY, INS_SIGN_MESSAGE, INS_SIGN_OFFCHAIN_MESSAGE,
    P2_EXTEND, P2_MORE,
};
use ledger_sol_core::path::standard_solana_path;
use ledger_sol_core::LedgerSolError;

fn protocol_reason<T: std::fmt::Debug>(r: Result<T, LedgerSolError>) -> String {
    match r {
        Err(LedgerSolError::Protocol { reason }) => reason,
        other => panic!("expected Protocol, got {:?}", other),
    }
}

#[test]
fn app_configuration_command_and_answer() {
    assert_eq!(app_configuration_apdu(), vec![0xE0, 0x04, 0x00, 0x00, 0x00]);
    assert_eq!(parse_app_configuration(&[0x01, 1, 2, 3]).unwrap(), vec![1, 2, 3]);
    assert_eq!(parse_app_configuration(&[0xff, 9, 8, 7, 6, 5]).unwrap(), vec![9, 8, 7]);
    assert_eq!(
        protocol_reason(parse_app_configuration(&[1, 2, 3])),
        "GET_APP_CONFIG: expected \u{2265}4 bytes, got 3"
    );
}

#[test]
fn build_apdu_frames_and_limits() {
    assert_eq!(build_apdu(CLA, 6, 1, 2, &[9, 8]).unwrap(), vec![0xE0, 6, 1, 2, 2, 9, 8]);
    let max = vec![7u8; 255];
    let framed = build_apdu(CLA, 5, 0, 0, &max).unwrap();
    assert_eq!(framed.len(), 260);
    assert_eq!(framed[4], 255);
    assert_eq!(
        protocol_reason(build_apdu(CLA, 5, 0, 0, &vec![0u8; 256])),
        "APDU payload 256 exceeds 255 byte ceiling"
    );
}

#[test]
fn status_words_map_to_errors() {
    assert_eq!(check_response(0x05, 0x9000, vec![1, 2]).unwrap(), vec![1, 2]);
    assert!(matches!(
        check_response(0x06, 0x6985, vec![]),
        Err(LedgerSolError::UserCanceled)
    ));
    match check_response(0x06, 0x6a80, vec![]) {
        Err(LedgerSolError::DeviceRejected { status_word, reason }) => {
            assert_eq!(status_word, 0x6a80);
            assert_eq!(reason, "INS 0x06: device returned 0x6A80");
        }
        other => panic!("unexpected {:?}", other),
    }
    match LedgerSolError::from_status(0x0001, "GET") {
        LedgerSolError::DeviceRejected { status_word, reason } => {
            assert_eq!(status_word, 1);
            assert_eq!(reason, "GET: device returned 0x0001");
        }
        other => panic!("unexpected {:?}", other),
    }
}

#[test]
fn error_constructors_keep_reason() {
    assert!(matches!(
        LedgerSolError::protocol("p".to_string()),
        LedgerSolError::Protocol { reason } if reason == "p"
    ));
    assert!(matches!(
        LedgerSolError::invalid_path("q".to_string()),
        LedgerSolError::InvalidPath { reason } if reason == "q"
    ));
    assert!(matches!(
        LedgerSolError::invalid_message("r".to_string()),
        LedgerSolError::InvalidMessage { reason } if reason == "r"
    ));
}

#[test]
fn address_command_and_answer() {
    let path = standard_solana_path(0);
    let cmd = address_apdu(&path, true).unwrap();
    assert_eq!(&cmd[..5], &[0xE0, INS_GET_PUBKEY, 0x01, 0x00, 17]);
    assert_eq!(cmd[5], 4);
    let cmd = address_apdu(&path, false).unwrap();
    assert_eq!(cmd[2], 0x00);
    // 64 components encode to 257 bytes: too long for one APDU.
    let long: Vec<u32> = vec![0; 64];
    assert_eq!(
        protocol_reason(address_apdu(&long, false)),
        "APDU payload 257 exceeds 255 byte ceiling"
    );

    let mut response = vec![0u8; 32];
    response.extend_from_slice(&[0xAA, 0xBB]);
    let addr = parse_address_response(&response).unwrap();
    assert_eq!(addr.pubkey, vec![0u8; 32]);
    assert_eq!(addr.base58, "11111111111111111111111111111111");
    let key: Vec<u8> = (1..=32).collect();
    let addr = parse_address_response(&key).unwrap();
    assert_eq!(addr.pubkey, key);
    assert_eq!(addr.base58, bs58::encode(&key).into_string());
    assert_eq!(
        protocol_reason(parse_address_response(&[0u8; 31])),
        "GET_PUBKEY: expected \u{2265}32 bytes, got 31"
    );
}

#[test]
fn signature_answer() {
    let sig: Vec<u8> = (0..70).collect();
    let s = parse_signature_response(INS_SIGN_MESSAGE, &sig).unwrap();
    assert_eq!(s.bytes, sig[..64].to_vec());
    assert_eq!(s.base58, bs58::encode(&sig[..64]).into_string());
    assert_eq!(
        protocol_reason(parse_signature_response(INS_SIGN_OFFCHAIN_MESSAGE, &[1, 2])),
        "sign INS 0x07: expected \u{2265}64 bytes, got 2"
    );
}

#[test]
fn short_payload_is_one_apdu_without_p2() {
    let apdus = chunked_apdus(CLA, INS_SIGN_MESSAGE, 1, &[5, 6, 7]);
    assert_eq!(apdus, vec![vec![0xE0, 0x06, 0x01, 0x00, 3, 5, 6, 7]]);
    let apdus = chunked_apdus(CLA, INS_SIGN_MESSAGE, 1, &[]);
    assert_eq!(apdus, vec![vec![0xE0, 0x06, 0x01, 0x00, 0]]);
}

#[test]
fn long_payload_chunks_with_continuation_bits() {
    let payload: Vec<u8> = (0..600u32).map(|i| (i % 251) as u8).collect();
    let apdus = chunked_apdus(CLA, INS_SIGN_MESSAGE, 1, &payload);
    assert_eq!(apdus.len(), 3);
    assert_eq!(apdus[0][3], P2_MORE);
    assert_eq!(apdus[1][3], P2_EXTEND | P2_MORE);
    assert_eq!(apdus[2][3], P2_EXTEND);
    assert_eq!(apdus[0][4], 255);
    assert_eq!(apdus[1][4], 255);
    assert_eq!(apdus[2][4], 90);
    let joined: Vec<u8> = apdus.iter().flat_map(|a| a[5..].to_vec()).collect();
    assert_eq!(joined, payload);

    // Exactly 510 bytes: two full chunks.
    let apdus = chunked_apdus(CLA, INS_SIGN_MESSAGE, 1, &vec![1u8; 510]);
    assert_eq!(apdus.len(), 2);
    assert_eq!(apdus[0][3], P2_MORE);
    assert_eq!(apdus[1][3], P2_EXTEND);
    assert_eq!(apdus[1][4], 255);
    // 256 bytes: 255 + 1.
    let apdus = chunked_apdus(CLA, INS_SIGN_MESSAGE, 1, &vec![1u8; 256]);
    assert_eq!(apdus.len(), 2);
    assert_eq!(apdus[1][4], 1);
}

#[test]
fn signing_session_runs_to_the_last_answer() {
    let path = standard_solana_path(0);
    let message = vec![0x42u8; 400];
    let mut x = sign_exchange(INS_SIGN_MESSAGE, &path, &message).unwrap();
    let first = x.next_apdu().unwrap();
    assert_eq!(&first[..5], &[0xE0, 0x06, 0x01, P2_MORE, 255]);
    assert_eq!(&first[5..8], &[1, 4, 0x80]);
    assert_eq!(x.on_response(0x9000, vec![]).unwrap(), false);
    let second = x.next_apdu().unwrap();
    assert_eq!(&second[..5], &[0xE0, 0x06, 0x01, P2_EXTEND, (2 + 16 + 400 - 255) as u8]);
    assert_eq!(x.on_response(0x9000, vec![9u8; 64]).unwrap(), true);
    assert!(x.next_apdu().is_none());
    assert_eq!(x.into_response(), vec![9u8; 64]);
}

#[test]
fn signing_session_stops_on_refusal() {
    let path = standard_solana_path(1);
    let mut x = sign_exchange(INS_SIGN_OFFCHAIN_MESSAGE, &path, &[1, 2, 3]).unwrap();
    let only = x.next_apdu().unwrap();
    assert_eq!(only, {
        let mut v = vec![0xE0, 0x07, 0x01, 0x00, 21, 1, 4];
        v.extend_from_slice(&[0x80, 0, 0, 44, 0x80, 0, 1, 0xF5, 0x80, 0, 0, 1, 0x80, 0, 0, 0]);
        v.extend_from_slice(&[1, 2, 3]);
        v
    });
    assert!(matches!(x.on_response(0x6985, vec![]), Err(LedgerSolError::UserCanceled)));
    // The refused APDU is still the next one: nothing was recorded.
    assert_eq!(x.next_apdu().unwrap(), only);
}

#[test]
fn signing_refuses_empty_message() {
    let path = standard_solana_path(0);
    match sign_exchange(INS_SIGN_MESSAGE, &path, &[]) {
        Err(LedgerSolError::InvalidMessage { reason }) => assert_eq!(reason, "message is empty"),
        Err(e) => panic!("unexpected {:?}", e),
        Ok(_) => panic!("empty message accepted"),
    }
}

#[test]
fn fresh_exchange_has_empty_response() {
    let x = ChunkedExchange::new(CLA, INS_SIGN_MESSAGE, 1, &[1]);
    assert_eq!(x.into_response(), Vec::<u8>::new());
}
