//! The Ledger Solana app's APDU protocol: command framing, status words,
//! chunking of long payloads, and decoding of the answers. The transport that
//! carries the bytes lives outside the library; the functions here decide
//! what to send and what an answer means.

use vstd::prelude::*;
use crate::base58::{base58_encoding, bs58_encode};
use crate::bytes::push_all;
use crate::error::{LedgerSolError, LedgerSolErrorModel, spec_from_status};
use crate::path::{build_sign_payload, encode_path, spec_encode_path, spec_sign_payload};
use crate::text::{push_decimal, push_hex, spec_decimal, spec_hex};
use crate::types::{SolanaAddress, SolanaSignature};

verus! {

/// Instruction class of the Solana app.
pub const CLA: u8 = 0xE0;
/// GET_APP_CONFIG instruction.
pub const INS_GET_APP_CONFIG: u8 = 0x04;
/// GET_PUBKEY instruction.
pub const INS_GET_PUBKEY: u8 = 0x05;
/// SIGN_MESSAGE instruction (transaction messages).
pub const INS_SIGN_MESSAGE: u8 = 0x06;
/// SIGN_OFFCHAIN_MESSAGE instruction.
pub const INS_SIGN_OFFCHAIN_MESSAGE: u8 = 0x07;
/// P1: answer without on-device confirmation.
pub const P1_NON_CONFIRM: u8 = 0x00;
/// P1: ask the user to confirm on the device.
pub const P1_CONFIRM: u8 = 0x01;
/// P2 bit: this chunk continues a message begun by an earlier chunk.
pub const P2_EXTEND: u8 = 0x01;
/// P2 bit: another chunk follows this one.
pub const P2_MORE: u8 = 0x02;
/// Largest data field of a single short APDU.
pub const MAX_APDU_DATA: usize = 255;
/// Status word of success.
pub const SW_SUCCESS: u16 = 0x9000;

/// A command APDU: `CLA INS P1 P2 Lc` followed by the data.
pub open spec fn spec_apdu(cla: u8, ins: u8, p1: u8, p2: u8, data: Seq<u8>) -> Seq<u8> {
    seq![cla, ins, p1, p2, data.len() as u8] + data
}

/// The error for a data field longer than one APDU can carry.
pub open spec fn apdu_too_long(len: nat) -> LedgerSolErrorModel {
    LedgerSolErrorModel::Protocol {
        reason: "APDU payload "@ + spec_decimal(len) + " exceeds "@ + spec_decimal(
            MAX_APDU_DATA as nat,
        ) + " byte ceiling"@,
    }
}

/// Frames one command APDU; a data field over 255 bytes is refused.
pub fn build_apdu(cla: u8, ins: u8, p1: u8, p2: u8, data: &[u8]) -> (r: Result<
    Vec<u8>,
    LedgerSolError,
>)
    ensures
        data@.len() > MAX_APDU_DATA ==> (r matches Err(e) && e@ == apdu_too_long(data@.len())),
        data@.len() <= MAX_APDU_DATA ==> (r matches Ok(v) && v@ == spec_apdu(
            cla,
            ins,
            p1,
            p2,
            data@,
        )),
{
    if data.len() > MAX_APDU_DATA {
        let mut reason = String::from_str("APDU payload ");
        push_decimal(&mut reason, data.len() as u64);
        reason.append(" exceeds ");
        push_decimal(&mut reason, MAX_APDU_DATA as u64);
        reason.append(" byte ceiling");
        return Err(LedgerSolError::protocol(reason));
    }
    let mut apdu: Vec<u8> = Vec::new();
    apdu.push(cla);
    apdu.push(ins);
    apdu.push(p1);
    apdu.push(p2);
    apdu.push(data.len() as u8);
    push_all(&mut apdu, data);
    assert(apdu@ =~= spec_apdu(cla, ins, p1, p2, data@));
    Ok(apdu)
}

/// The label under which a failed command is reported: `INS 0x..`.
pub open spec fn command_label(ins: u8) -> Seq<char> {
    "INS 0x"@ + spec_hex(ins as nat, 2)
}

fn command_label_string(ins: u8) -> (s: String)
    ensures
        s@ == command_label(ins),
{
    let mut s = String::from_str("INS 0x");
    push_hex(&mut s, ins as u64, 2);
    s
}

/// Interprets the status word of an answer to instruction `ins`: success
/// hands the data on, any other status word becomes an error.
pub fn check_response(ins: u8, status_word: u16, data: Vec<u8>) -> (r: Result<
    Vec<u8>,
    LedgerSolError,
>)
    ensures
        status_word == SW_SUCCESS ==> (r matches Ok(v) && v@ == data@),
        status_word != SW_SUCCESS ==> (r matches Err(e) && e@ == spec_from_status(
            status_word,
            command_label(ins),
        )),
{
    if status_word != SW_SUCCESS {
        let label = command_label_string(ins);
        return Err(LedgerSolError::from_status(status_word, label.as_str()));
    }
    Ok(data)
}

/// Number of chunks a payload of `len` bytes is cut into.
pub open spec fn chunk_count(len: nat) -> nat {
    if len <= MAX_APDU_DATA {
        1
    } else {
        ((len + 254) / 255) as nat
    }
}

/// The data field of chunk `k`: bytes `255k` up to `255k + 255` (or the end).
pub open spec fn chunk_data(payload: Seq<u8>, k: nat) -> Seq<u8> {
    let start: int = (255 * k) as int;
    let end = if start + 255 <= payload.len() {
        start + 255
    } else {
        payload.len() as int
    };
    payload.subrange(start as int, end)
}

/// P2 of chunk `k` out of `count`: EXTEND on every chunk but the first, MORE
/// on every chunk but the last.
pub open spec fn chunk_p2(k: nat, count: nat) -> u8 {
    ((if k > 0 {
        P2_EXTEND
    } else {
        0u8
    }) + (if k + 1 < count {
        P2_MORE
    } else {
        0u8
    })) as u8
}

/// The APDUs that carry `payload`: a single APDU with P2 = 0 when it fits,
/// otherwise consecutive 255-byte chunks flagged with EXTEND / MORE.
pub open spec fn spec_chunked_apdus(cla: u8, ins: u8, p1: u8, payload: Seq<u8>) -> Seq<Seq<u8>> {
    if payload.len() <= MAX_APDU_DATA {
        seq![spec_apdu(cla, ins, p1, 0, payload)]
    } else {
        Seq::new(
            chunk_count(payload.len()),
            |k: int|
                spec_apdu(
                    cla,
                    ins,
                    p1,
                    chunk_p2(k as nat, chunk_count(payload.len())),
                    chunk_data(payload, k as nat),
                ),
        )
    }
}

/// The data fields of a sequence of APDUs, concatenated.
pub open spec fn concat_data(apdus: Seq<Seq<u8>>) -> Seq<u8>
    decreases apdus.len(),
{
    if apdus.len() == 0 {
        seq![]
    } else {
        concat_data(apdus.drop_last()) + apdus.last().skip(5)
    }
}

proof fn lemma_chunk_prefix(cla: u8, ins: u8, p1: u8, payload: Seq<u8>, n: nat)
    requires
        payload.len() > MAX_APDU_DATA,
        n <= chunk_count(payload.len()),
    ensures
        concat_data(spec_chunked_apdus(cla, ins, p1, payload).take(n as int)) == payload.take(
            if 255 * n <= payload.len() {
                (255 * n) as int
            } else {
                payload.len() as int
            },
        ),
    decreases n,
{
    let apdus = spec_chunked_apdus(cla, ins, p1, payload);
    if n == 0 {
        assert(apdus.take(0) =~= Seq::<Seq<u8>>::empty());
        assert(payload.take(0) =~= Seq::<u8>::empty());
    } else {
        let m = (n - 1) as nat;
        lemma_chunk_prefix(cla, ins, p1, payload, m);
        assert(apdus.take(n as int).drop_last() =~= apdus.take(m as int));
        let len = payload.len();
        assert(255 * m <= len) by (nonlinear_arith)
            requires
                m + 1 <= (len + 254) / 255,
                len > 255,
        ;
        let data = chunk_data(payload, m);
        assert(apdus[m as int].skip(5) =~= data);
        let end = if 255 * n <= len {
            (255 * n) as int
        } else {
            len as int
        };
        assert(payload.take((255 * m) as int) + data =~= payload.take(end));
    }
}

/// Law: the data fields of the APDUs that carry a payload are, in order,
/// exactly the payload; every APDU's length byte gives its data length, which
/// never exceeds 255 bytes. A payload that fits goes in one APDU with P2 = 0;
/// a longer one goes in two or more, the first flagged MORE, the last EXTEND
/// and every other one EXTEND | MORE.
pub proof fn lemma_chunks_carry_payload(cla: u8, ins: u8, p1: u8, payload: Seq<u8>)
    ensures
        concat_data(spec_chunked_apdus(cla, ins, p1, payload)) == payload,
        spec_chunked_apdus(cla, ins, p1, payload).len() == chunk_count(payload.len()),
        forall|k: int|
            0 <= k < spec_chunked_apdus(cla, ins, p1, payload).len() ==> {
                let a = #[trigger] spec_chunked_apdus(cla, ins, p1, payload)[k];
                &&& 5 <= a.len() <= 5 + MAX_APDU_DATA
                &&& a[4] as int == a.len() - 5
            },
        payload.len() <= MAX_APDU_DATA ==> spec_chunked_apdus(cla, ins, p1, payload)[0][3] == 0,
        payload.len() > MAX_APDU_DATA ==> ({
            let apdus = spec_chunked_apdus(cla, ins, p1, payload);
            &&& apdus.len() >= 2
            &&& apdus[0][3] == P2_MORE
            &&& apdus[apdus.len() - 1][3] == P2_EXTEND
            &&& forall|k: int| 0 < k < apdus.len() - 1 ==> (#[trigger] apdus[k])[3] == P2_EXTEND
                | P2_MORE
        }),
{
    let apdus = spec_chunked_apdus(cla, ins, p1, payload);
    assert(P2_EXTEND | P2_MORE == 3u8) by (bit_vector);
    let len = payload.len();
    if len <= MAX_APDU_DATA {
        assert(apdus.drop_last() =~= Seq::<Seq<u8>>::empty());
        assert(apdus[0].skip(5) =~= payload);
        assert(apdus.last() == apdus[0]);
        assert(concat_data(apdus.drop_last()) =~= Seq::<u8>::empty());
        assert(concat_data(apdus) =~= payload);
    } else {
        let count = chunk_count(len);
        lemma_chunk_prefix(cla, ins, p1, payload, count);
        assert(255 * count >= len) by (nonlinear_arith)
            requires
                count == (len + 254) / 255,
        ;
        assert(apdus.take(count as int) =~= apdus);
        assert(payload.take(len as int) =~= payload);
        assert forall|k: int| 0 <= k < apdus.len() implies {
            let a = #[trigger] apdus[k];
            &&& 5 <= a.len() <= 5 + MAX_APDU_DATA
            &&& a[4] as int == a.len() - 5
        } by {
            assert(255 * k <= len) by (nonlinear_arith)
                requires
                    k + 1 <= (len + 254) / 255,
                    0 <= k,
                    len > 255,
            ;
        }
    }
}

fn copy_bytes(src: &Vec<u8>) -> (out: Vec<u8>)
    ensures
        out@ == src@,
{
    let mut out: Vec<u8> = Vec::new();
    push_all(&mut out, src.as_slice());
    assert(out@ =~= src@);
    out
}

/// The APDUs that carry `payload`, in the order they are sent.
pub fn chunked_apdus(cla: u8, ins: u8, p1: u8, payload: &[u8]) -> (v: Vec<Vec<u8>>)
    ensures
        v@.map_values(|a: Vec<u8>| a@) == spec_chunked_apdus(cla, ins, p1, payload@),
{
    let len = payload.len();
    let mut v: Vec<Vec<u8>> = Vec::new();
    if len <= MAX_APDU_DATA {
        let apdu = build_apdu(cla, ins, p1, 0, payload);
        match apdu {
            Ok(a) => {
                v.push(a);
            },
            Err(_) => {},
        }
        assert(v@.map_values(|a: Vec<u8>| a@) =~= spec_chunked_apdus(cla, ins, p1, payload@));
        return v;
    }
    let ghost count = chunk_count(len as nat);
    let ghost target = spec_chunked_apdus(cla, ins, p1, payload@);
    let mut offset: usize = 0;
    let mut k: usize = 0;
    while offset < len
        invariant
            len == payload@.len(),
            len > MAX_APDU_DATA,
            count == chunk_count(len as nat),
            target == spec_chunked_apdus(cla, ins, p1, payload@),
            offset <= len,
            offset < len ==> offset == 255 * k,
            offset < len ==> k < count,
            offset >= len ==> k == count,
            v@.len() == k,
            forall|j: int| 0 <= j < k ==> (#[trigger] v@[j])@ == target[j],
        decreases len - offset,
    {
        let end = if offset + MAX_APDU_DATA < len {
            offset + MAX_APDU_DATA
        } else {
            len
        };
        let is_first = offset == 0;
        let is_last = end == len;
        let mut p2: u8 = 0;
        if !is_first {
            p2 = p2 + P2_EXTEND;
        }
        if !is_last {
            p2 = p2 + P2_MORE;
        }
        proof {
            if offset + 255 < len {
                assert(k + 1 < count) by (nonlinear_arith)
                    requires
                        count == (len + 254) / 255,
                        offset == 255 * k,
                        offset + 255 < len,
                ;
            } else {
                assert(k + 1 == count) by (nonlinear_arith)
                    requires
                        count == (len + 254) / 255,
                        offset == 255 * k,
                        offset < len,
                        offset + 255 >= len,
                ;
            }
            assert(p2 == chunk_p2(k as nat, count));
        }
        let chunk = slice_range(payload, offset, end);
        let apdu = build_apdu(cla, ins, p1, p2, chunk.as_slice());
        match apdu {
            Ok(a) => {
                assert(chunk@ =~= chunk_data(payload@, k as nat));
                v.push(a);
            },
            Err(_) => {},
        }
        offset = end;
        k = k + 1;
    }
    assert(v@.map_values(|a: Vec<u8>| a@) =~= target);
    v
}

fn slice_range(s: &[u8], from: usize, to: usize) -> (r: Vec<u8>)
    requires
        from <= to <= s@.len(),
    ensures
        r@ == s@.subrange(from as int, to as int),
{
    let mut r: Vec<u8> = Vec::new();
    for i in from..to
        invariant
            to <= s@.len(),
            r@ == s@.subrange(from as int, i as int),
    {
        r.push(s[i]);
        assert(r@ =~= s@.subrange(from as int, i + 1));
    }
    r
}

/// One multi-APDU command in flight: the APDUs still to send and the data
/// of the latest answer. The host sends `next_apdu`, hands each answer to
/// `on_response`, and stops at the first error.
pub struct ChunkedExchange {
    ins: u8,
    apdus: Vec<Vec<u8>>,
    sent: usize,
    response: Vec<u8>,
}

impl ChunkedExchange {
    /// The instruction being sent.
    pub closed spec fn ins(&self) -> u8 {
        self.ins
    }

    /// All APDUs of the command, in order.
    pub closed spec fn apdus(&self) -> Seq<Seq<u8>> {
        self.apdus@.map_values(|a: Vec<u8>| a@)
    }

    /// How many APDUs have been answered with success.
    pub closed spec fn sent(&self) -> nat {
        self.sent as nat
    }

    /// The data of the latest successful answer (empty before any).
    pub closed spec fn response(&self) -> Seq<u8> {
        self.response@
    }

    /// Well-formedness: no more answers than APDUs.
    pub closed spec fn wf(&self) -> bool {
        self.sent <= self.apdus@.len()
    }

    /// Starts sending `payload` with instruction `ins`, chunked as the
    /// Solana app expects.
    pub fn new(cla: u8, ins: u8, p1: u8, payload: &[u8]) -> (x: Self)
        ensures
            x.wf(),
            x.ins() == ins,
            x.apdus() == spec_chunked_apdus(cla, ins, p1, payload@),
            x.sent() == 0,
            x.response() == Seq::<u8>::empty(),
    {
        ChunkedExchange { ins, apdus: chunked_apdus(cla, ins, p1, payload), sent: 0, response: Vec::new() }
    }

    /// The next APDU to send, if any is left.
    pub fn next_apdu(&self) -> (r: Option<Vec<u8>>)
        requires
            self.wf(),
        ensures
            self.sent() < self.apdus().len() ==> (r matches Some(a) && a@ == self.apdus()[self.sent() as int]),
            self.sent() >= self.apdus().len() ==> r is None,
    {
        if self.sent < self.apdus.len() {
            Some(copy_bytes(&self.apdus[self.sent]))
        } else {
            None
        }
    }

    /// Takes the answer to the APDU last returned by `next_apdu`. A status
    /// word other than success ends the command with its error; success
    /// records the data and tells whether that was the last APDU.
    pub fn on_response(&mut self, status_word: u16, data: Vec<u8>) -> (r: Result<bool, LedgerSolError>)
        requires
            old(self).wf(),
            old(self).sent() < old(self).apdus().len(),
        ensures
            final(self).wf(),
            final(self).ins() == old(self).ins(),
            final(self).apdus() == old(self).apdus(),
            status_word != SW_SUCCESS ==> ({
                &&& r matches Err(e) && e@ == spec_from_status(status_word, command_label(old(self).ins()))
                &&& final(self).sent() == old(self).sent()
                &&& final(self).response() == old(self).response()
            }),
            status_word == SW_SUCCESS ==> ({
                &&& final(self).sent() == old(self).sent() + 1
                &&& final(self).response() == data@
                &&& r matches Ok(done) && done == (final(self).sent() == final(self).apdus().len())
            }),
    {
        assert(self.apdus@.map_values(|a: Vec<u8>| a@).len() == self.apdus@.len());
        assert(self.sent < self.apdus.len());
        match check_response(self.ins, status_word, data) {
            Err(e) => Err(e),
            Ok(d) => {
                self.sent = self.sent + 1;
                self.response = d;
                Ok(self.sent == self.apdus.len())
            },
        }
    }

    /// The data of the latest successful answer; once every APDU has been
    /// answered, the answer to the last chunk.
    pub fn into_response(self) -> (r: Vec<u8>)
        ensures
            r@ == self.response(),
    {
        self.response
    }
}

/// The GET_APP_CONFIG command.
pub fn app_configuration_apdu() -> (v: Vec<u8>)
    ensures
        v@ == spec_apdu(CLA, INS_GET_APP_CONFIG, 0, 0, seq![]),
{
    let empty: Vec<u8> = Vec::new();
    match build_apdu(CLA, INS_GET_APP_CONFIG, 0, 0, empty.as_slice()) {
        Ok(v) => v,
        Err(_) => Vec::new(),
    }
}

/// Decodes the answer to GET_APP_CONFIG, `[flags, major, minor, patch]`,
/// into the version triple `[major, minor, patch]`.
pub fn parse_app_configuration(response: &[u8]) -> (r: Result<Vec<u8>, LedgerSolError>)
    ensures
        response@.len() < 4 ==> (r matches Err(e) && e@ == (LedgerSolErrorModel::Protocol {
            reason: "GET_APP_CONFIG: expected ≥4 bytes, got "@ + spec_decimal(response@.len()),
        })),
        response@.len() >= 4 ==> (r matches Ok(v) && v@ == seq![response@[1], response@[2], response@[3]]),
{
    if response.len() < 4 {
        let mut reason = String::from_str("GET_APP_CONFIG: expected ≥4 bytes, got ");
        push_decimal(&mut reason, response.len() as u64);
        return Err(LedgerSolError::protocol(reason));
    }
    let mut v: Vec<u8> = Vec::new();
    v.push(response[1]);
    v.push(response[2]);
    v.push(response[3]);
    assert(v@ =~= seq![response@[1], response@[2], response@[3]]);
    Ok(v)
}

/// The GET_PUBKEY command for a derivation path; `display` asks the user to
/// confirm the address on the device. A path too long for one APDU is
/// refused.
pub fn address_apdu(components: &[u32], display: bool) -> (r: Result<Vec<u8>, LedgerSolError>)
    ensures
        spec_encode_path(components@).len() > MAX_APDU_DATA ==> (r matches Err(e) && e@
            == apdu_too_long(spec_encode_path(components@).len())),
        spec_encode_path(components@).len() <= MAX_APDU_DATA ==> (r matches Ok(v) && v@ == spec_apdu(
            CLA,
            INS_GET_PUBKEY,
            if display {
                P1_CONFIRM
            } else {
                P1_NON_CONFIRM
            },
            0,
            spec_encode_path(components@),
        )),
{
    let payload = encode_path(components);
    let p1 = if display {
        P1_CONFIRM
    } else {
        P1_NON_CONFIRM
    };
    build_apdu(CLA, INS_GET_PUBKEY, p1, 0, payload.as_slice())
}

/// Decodes the answer to GET_PUBKEY: its first 32 bytes are the public key,
/// returned with their base58 form.
pub fn parse_address_response(response: &[u8]) -> (r: Result<SolanaAddress, LedgerSolError>)
    ensures
        response@.len() < 32 ==> (r matches Err(e) && e@ == (LedgerSolErrorModel::Protocol {
            reason: "GET_PUBKEY: expected ≥32 bytes, got "@ + spec_decimal(response@.len()),
        })),
        response@.len() >= 32 ==> (r matches Ok(a) && a.pubkey@ == response@.take(32)
            && a.base58@ == base58_encoding(response@.take(32))),
{
    if response.len() < 32 {
        let mut reason = String::from_str("GET_PUBKEY: expected ≥32 bytes, got ");
        push_decimal(&mut reason, response.len() as u64);
        return Err(LedgerSolError::protocol(reason));
    }
    let pubkey = slice_range(response, 0, 32);
    let base58 = bs58_encode(pubkey.as_slice());
    assert(response@.subrange(0, 32) =~= response@.take(32));
    Ok(SolanaAddress { pubkey, base58 })
}

/// Starts a signing command (`ins` is SIGN_MESSAGE or SIGN_OFFCHAIN_MESSAGE):
/// refuses an empty message, otherwise chunks the payload
/// `[1] [path] [message]`, sent with user confirmation.
pub fn sign_exchange(ins: u8, components: &[u32], message: &[u8]) -> (r: Result<
    ChunkedExchange,
    LedgerSolError,
>)
    ensures
        message@.len() == 0 ==> (r matches Err(e) && e@ == (LedgerSolErrorModel::InvalidMessage {
            reason: "message is empty"@,
        })),
        message@.len() > 0 ==> (r matches Ok(x) && x.wf() && x.ins() == ins && x.sent() == 0
            && x.response() == Seq::<u8>::empty() && x.apdus() == spec_chunked_apdus(
            CLA,
            ins,
            P1_CONFIRM,
            spec_sign_payload(components@, message@),
        )),
{
    if message.len() == 0 {
        return Err(LedgerSolError::invalid_message(String::from_str("message is empty")));
    }
    let payload = build_sign_payload(components, message);
    Ok(ChunkedExchange::new(CLA, ins, P1_CONFIRM, payload.as_slice()))
}

/// The label of a signing instruction in error reasons: `sign INS 0x..`.
pub open spec fn sign_label(ins: u8) -> Seq<char> {
    "sign INS 0x"@ + spec_hex(ins as nat, 2)
}

/// Decodes the final answer to a signing command: its first 64 bytes are the
/// signature, returned with their base58 form.
pub fn parse_signature_response(ins: u8, response: &[u8]) -> (r: Result<
    SolanaSignature,
    LedgerSolError,
>)
    ensures
        response@.len() < 64 ==> (r matches Err(e) && e@ == (LedgerSolErrorModel::Protocol {
            reason: sign_label(ins) + ": expected ≥64 bytes, got "@ + spec_decimal(response@.len()),
        })),
        response@.len() >= 64 ==> (r matches Ok(s) && s.bytes@ == response@.take(64)
            && s.base58@ == base58_encoding(response@.take(64))),
{
    if response.len() < 64 {
        let mut reason = String::from_str("sign INS 0x");
        push_hex(&mut reason, ins as u64, 2);
        reason.append(": expected ≥64 bytes, got ");
        push_decimal(&mut reason, response.len() as u64);
        return Err(LedgerSolError::protocol(reason));
    }
    let bytes = slice_range(response, 0, 64);
    let base58 = bs58_encode(bytes.as_slice());
    assert(response@.subrange(0, 64) =~= response@.take(64));
    Ok(SolanaSignature { bytes, base58 })
}

} // verus!
