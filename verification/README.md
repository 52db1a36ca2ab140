# ledger_sol_core

Verified core of a client for the Ledger Solana app, plus software signing and
verification of Solana off-chain messages.

`src/` (verified with Verus):

- `path` — BIP-32 paths: `harden`, the standard account path
  `m/44'/501'/{account}'/0'`, parsing of textual paths, the wire encoding of a
  path and of the signing payload.
- `apdu` — APDU framing, status words, chunking of long payloads
  (EXTEND / MORE continuation bits), the `ChunkedExchange` state machine for a
  multi-APDU command, and decoding of the device's answers.
- `message` — the off-chain message envelope, `sol_sign_message`,
  `sol_verify_message`, `sol_offchain_envelope`, `sol_hardware_signed_message`.
- `error`, `types` — the error type with its model, the returned records.
- `base58`, `ed25519` — the calls into `bs58` and `ed25519-dalek`, with their
  contracts; base58 is specified exactly and its round trip is proved.
- `text`, `bytes` — whitespace trimming, decimal / hex rendering, byte helpers.

`app/` holds the async client that drives the host's APDU transport, and
host-side copies of the records and errors with `thiserror` derives.
