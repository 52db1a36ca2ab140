//! BIP-32 derivation paths: hardening, the standard Solana account path,
//! parsing of textual paths and the wire encoding the Solana app expects.

use vstd::prelude::*;
use crate::bytes::push_all;
use crate::error::{LedgerSolError, LedgerSolErrorModel};
use crate::text::{
    is_unicode_whitespace, lemma_trim_no_whitespace, push_decimal, spec_decimal, spec_trim,
    trim_whitespace,
};

verus! {

/// Bit that marks a hardened BIP-32 component.
pub const HARDENED_BIT: u32 = 0x8000_0000;

/// A component with the hardened bit set.
pub open spec fn spec_harden(index: u32) -> u32 {
    if index < 0x8000_0000 {
        (index + 0x8000_0000) as u32
    } else {
        index
    }
}

/// Sets the hardened bit of a path component.
pub fn harden(index: u32) -> (r: u32)
    ensures
        r == spec_harden(index),
        r >= HARDENED_BIT,
        r % 0x8000_0000 == index % 0x8000_0000,
        index < HARDENED_BIT ==> r == index + HARDENED_BIT,
{
    proof {
        lemma_harden_sets_only_top_bit(index);
    }
    let r = index | HARDENED_BIT;
    assert(r == (if index < 0x8000_0000u32 { (index + 0x8000_0000u32) as u32 } else { index })) by (bit_vector)
        requires
            r == index | 0x8000_0000u32,
    ;
    r
}

/// Law: hardening sets the top bit and keeps the 31 low bits: a component
/// below 2^31 gains exactly 2^31, one already hardened is kept.
pub proof fn lemma_harden_sets_only_top_bit(index: u32)
    ensures
        spec_harden(index) >= 0x8000_0000,
        spec_harden(index) % 0x8000_0000 == index % 0x8000_0000,
        index < 0x8000_0000 ==> spec_harden(index) == index + 0x8000_0000,
        index >= 0x8000_0000 ==> spec_harden(index) == index,
{
}

/// Law: the standard path of an account below 2^31 carries the account as
/// its third component (hardened), so distinct accounts get distinct paths.
pub proof fn lemma_standard_path_account(a: u32, b: u32)
    requires
        a < 0x8000_0000,
        b < 0x8000_0000,
    ensures
        spec_standard_solana_path(a).len() == 4,
        spec_standard_solana_path(a)[0] == 44 + 0x8000_0000,
        spec_standard_solana_path(a)[1] == 501 + 0x8000_0000,
        spec_standard_solana_path(a)[2] == a + 0x8000_0000,
        spec_standard_solana_path(a)[3] == 0x8000_0000,
        a != b ==> spec_standard_solana_path(a) != spec_standard_solana_path(b),
{
    lemma_harden_sets_only_top_bit(44);
    lemma_harden_sets_only_top_bit(501);
    lemma_harden_sets_only_top_bit(a);
    lemma_harden_sets_only_top_bit(b);
    lemma_harden_sets_only_top_bit(0);
    if a != b {
        assert(spec_standard_solana_path(a)[2] != spec_standard_solana_path(b)[2]);
    }
}

/// The standard Solana account path `m/44'/501'/{account}'/0'`.
pub open spec fn spec_standard_solana_path(account: u32) -> Seq<u32> {
    seq![spec_harden(44), spec_harden(501), spec_harden(account), spec_harden(0)]
}

/// Builds the standard Solana account path `m/44'/501'/{account}'/0'` as four
/// hardened components.
pub fn standard_solana_path(account: u32) -> (v: Vec<u32>)
    ensures
        v@ == spec_standard_solana_path(account),
{
    vec![harden(44), harden(501), harden(account), harden(0)]
}

/// The pieces of `s` between `/` separators, as `str::split('/')` yields
/// them (an empty sequence gives one empty piece).
pub open spec fn split_slash(s: Seq<char>) -> Seq<Seq<char>>
    decreases s.len(),
{
    if s.len() == 0 {
        seq![seq![]]
    } else {
        let rest = split_slash(s.drop_first());
        if s[0] == '/' {
            seq![seq![]] + rest
        } else {
            rest.update(0, seq![s[0]] + rest[0])
        }
    }
}

/// Whether every character of `s` is an ASCII decimal digit.
pub open spec fn all_decimal(s: Seq<char>) -> bool {
    forall|i: int| 0 <= i < s.len() ==> 48 <= (#[trigger] s[i]) as u32 <= 57
}

/// The value of a string of decimal digits.
pub open spec fn decimal_value(s: Seq<char>) -> nat
    decreases s.len(),
{
    if s.len() == 0 {
        0
    } else {
        decimal_value(s.drop_last()) * 10 + (s.last() as u32 - 48) as nat
    }
}

/// What `u32::from_str` accepts: an optional `+`, then at least one decimal
/// digit, with a value that fits in 32 bits.
pub open spec fn spec_parse_u32(s: Seq<char>) -> Option<u32> {
    let d = if s.len() > 0 && s[0] == '+' {
        s.drop_first()
    } else {
        s
    };
    if d.len() > 0 && all_decimal(d) && decimal_value(d) <= u32::MAX {
        Some(decimal_value(d) as u32)
    } else {
        None
    }
}

/// One path component: decimal digits, optionally followed by `'` or `h` for
/// a hardened component, below 2^31.
pub open spec fn spec_parse_component(raw: Seq<char>) -> Result<u32, LedgerSolErrorModel> {
    let hardened = raw.len() > 0 && (raw.last() == '\'' || raw.last() == 'h');
    let digits = if hardened {
        raw.drop_last()
    } else {
        raw
    };
    match spec_parse_u32(digits) {
        None => Err(
            LedgerSolErrorModel::InvalidPath {
                reason: "'"@ + raw + "' is not a valid path component"@,
            },
        ),
        Some(n) => if n >= HARDENED_BIT {
            Err(
                LedgerSolErrorModel::InvalidPath {
                    reason: "component "@ + spec_decimal(n as nat) + " exceeds 31-bit range"@,
                },
            )
        } else if hardened {
            Ok(spec_harden(n))
        } else {
            Ok(n)
        },
    }
}

/// The components of a sequence of pieces; the first invalid piece decides
/// the error.
pub open spec fn spec_parse_components(pieces: Seq<Seq<char>>) -> Result<
    Seq<u32>,
    LedgerSolErrorModel,
>
    decreases pieces.len(),
{
    if pieces.len() == 0 {
        Ok(seq![])
    } else {
        match spec_parse_component(pieces[0]) {
            Err(e) => Err(e),
            Ok(c) => match spec_parse_components(pieces.drop_first()) {
                Ok(cs) => Ok(seq![c] + cs),
                Err(e) => Err(e),
            },
        }
    }
}

/// The part of a textual path that holds its components: trimmed, without a
/// leading `m/`.
pub open spec fn spec_path_body(path: Seq<char>) -> Seq<char> {
    let t = spec_trim(path);
    if t.len() >= 2 && t[0] == 'm' && t[1] == '/' {
        t.skip(2)
    } else {
        t
    }
}

/// The components of a textual BIP-32 path such as `m/44'/501'/0'/0'`; an
/// empty body (such as `m/`) is the master key, with no components.
pub open spec fn spec_parse_bip32_path(path: Seq<char>) -> Result<Seq<u32>, LedgerSolErrorModel> {
    let body = spec_path_body(path);
    if body.len() == 0 {
        Ok(seq![])
    } else {
        spec_parse_components(split_slash(body))
    }
}

/// The model of a parse result.
pub open spec fn components_result(r: Result<Vec<u32>, LedgerSolError>) -> Result<
    Seq<u32>,
    LedgerSolErrorModel,
> {
    match r {
        Ok(v) => Ok(v@),
        Err(e) => Err(e@),
    }
}

/// `prefix` put in front of the components of `r`, if `r` succeeded.
pub open spec fn prepend_components(
    prefix: Seq<u32>,
    r: Result<Seq<u32>, LedgerSolErrorModel>,
) -> Result<Seq<u32>, LedgerSolErrorModel> {
    match r {
        Ok(v) => Ok(prefix + v),
        Err(e) => Err(e),
    }
}

proof fn lemma_split_nonempty(s: Seq<char>)
    ensures
        split_slash(s).len() >= 1,
    decreases s.len(),
{
    if s.len() > 0 {
        lemma_split_nonempty(s.drop_first());
    }
}

/// A piece without `/` that ends at a `/` is the first piece.
proof fn lemma_split_piece(s: Seq<char>, a: int, i: int)
    requires
        0 <= a <= i < s.len(),
        s[i] == '/',
        forall|k: int| a <= k < i ==> s[k] != '/',
    ensures
        split_slash(s.skip(a)) == seq![s.subrange(a, i)] + split_slash(s.skip(i + 1)),
    decreases i - a,
{
    if a == i {
        assert(s.skip(a).drop_first() =~= s.skip(i + 1));
        assert(s.subrange(a, i) =~= Seq::<char>::empty());
    } else {
        lemma_split_piece(s, a + 1, i);
        lemma_split_nonempty(s.skip(a + 1));
        assert(s.skip(a).drop_first() =~= s.skip(a + 1));
        assert(s.skip(a)[0] == s[a]);
        assert(seq![s[a]] + s.subrange(a + 1, i) =~= s.subrange(a, i));
        assert(split_slash(s.skip(a)) =~= seq![s.subrange(a, i)] + split_slash(s.skip(i + 1)));
    }
}

/// A tail without `/` is a single piece.
proof fn lemma_split_last(s: Seq<char>, a: int)
    requires
        0 <= a <= s.len(),
        forall|k: int| a <= k < s.len() ==> s[k] != '/',
    ensures
        split_slash(s.skip(a)) == seq![s.skip(a)],
    decreases s.len() - a,
{
    if a == s.len() {
        assert(s.skip(a) =~= Seq::<char>::empty());
    } else {
        lemma_split_last(s, a + 1);
        assert(s.skip(a).drop_first() =~= s.skip(a + 1));
        assert(s.skip(a)[0] == s[a]);
        assert(seq![s[a]] + s.skip(a + 1) =~= s.skip(a));
        assert(split_slash(s.skip(a)) =~= seq![s.skip(a)]);
    }
}

proof fn lemma_decimal_prefix(d: Seq<char>, k: int)
    requires
        0 <= k <= d.len(),
        all_decimal(d),
    ensures
        decimal_value(d.take(k)) <= decimal_value(d),
    decreases d.len(),
{
    if k < d.len() {
        let p = d.drop_last();
        assert(p.take(k) =~= d.take(k));
        assert(all_decimal(p)) by {
            assert forall|i: int| 0 <= i < p.len() implies 48 <= (#[trigger] p[i]) as u32 <= 57 by {
                assert(p[i] == d[i]);
            }
        }
        lemma_decimal_prefix(p, k);
    } else {
        assert(d.take(k) =~= d);
    }
}

/// Parses `s[lo..hi]` as `u32::from_str` would.
fn parse_u32(s: &str, lo: usize, hi: usize) -> (r: Option<u32>)
    requires
        lo <= hi <= s@.len(),
    ensures
        r == spec_parse_u32(s@.subrange(lo as int, hi as int)),
{
    let ghost whole = s@.subrange(lo as int, hi as int);
    let mut start = lo;
    if start < hi && s.get_char(start) == '+' {
        start = start + 1;
    }
    let ghost d = s@.subrange(start as int, hi as int);
    assert(d =~= (if whole.len() > 0 && whole[0] == '+' {
        whole.drop_first()
    } else {
        whole
    }));
    if start == hi {
        return None;
    }
    let mut v: u64 = 0;
    let mut i = start;
    while i < hi
        invariant
            lo <= start <= i <= hi <= s@.len(),
            d == s@.subrange(start as int, hi as int),
            whole == s@.subrange(lo as int, hi as int),
            d == (if whole.len() > 0 && whole[0] == '+' {
                whole.drop_first()
            } else {
                whole
            }),
            d.len() > 0,
            all_decimal(d.take(i - start)),
            v == decimal_value(d.take(i - start)),
            v <= u32::MAX,
        decreases hi - i,
    {
        let c = s.get_char(i);
        let u = c as u32;
        let ghost t = d.take(i - start + 1);
        assert(t.drop_last() =~= d.take(i - start));
        assert(t.last() == c);
        if u < 48 || u > 57 {
            assert(!all_decimal(d)) by {
                assert(d[i - start] == c);
            }
            return None;
        }
        v = v * 10 + (u - 48) as u64;
        assert(all_decimal(t)) by {
            assert forall|j: int| 0 <= j < t.len() implies 48 <= (#[trigger] t[j]) as u32 <= 57 by {
                if j < t.len() - 1 {
                    assert(t[j] == d.take(i - start)[j]);
                }
            }
        }
        if v > 0xffff_ffff {
            proof {
                if all_decimal(d) {
                    lemma_decimal_prefix(d, i - start + 1);
                }
            }
            return None;
        }
        i = i + 1;
    }
    assert(d.take(i - start) =~= d);
    Some(v as u32)
}

/// Parses one path component: decimal digits, optionally hardened by a
/// trailing `'` or `h`, below 2^31.
fn parse_component(raw: &str) -> (r: Result<u32, LedgerSolError>)
    ensures
        match r {
            Ok(c) => spec_parse_component(raw@) == Ok::<u32, LedgerSolErrorModel>(c),
            Err(e) => spec_parse_component(raw@) == Err::<u32, LedgerSolErrorModel>(e@),
        },
{
    let n = raw.unicode_len();
    let mut hardened = false;
    if n > 0 {
        let last = raw.get_char(n - 1);
        hardened = last == '\'' || last == 'h';
    }
    let end = if hardened {
        n - 1
    } else {
        n
    };
    assert(raw@.subrange(0, end as int) =~= (if hardened {
        raw@.drop_last()
    } else {
        raw@
    }));
    match parse_u32(raw, 0, end) {
        None => {
            let mut reason = String::from_str("'");
            reason.append(raw);
            reason.append("' is not a valid path component");
            Err(LedgerSolError::invalid_path(reason))
        },
        Some(v) => {
            if v >= HARDENED_BIT {
                let mut reason = String::from_str("component ");
                push_decimal(&mut reason, v as u64);
                reason.append(" exceeds 31-bit range");
                Err(LedgerSolError::invalid_path(reason))
            } else if hardened {
                Ok(harden(v))
            } else {
                Ok(v)
            }
        },
    }
}

/// Parses a BIP-32 derivation path such as `m/44'/501'/0'/0'` into its
/// components, with the hardened bit set on `'`- or `h`-suffixed entries.
/// Surrounding whitespace and a leading `m/` are ignored; an empty body is
/// the master key (no components).
pub fn parse_bip32_path(path: &str) -> (r: Result<Vec<u32>, LedgerSolError>)
    ensures
        components_result(r) == spec_parse_bip32_path(path@),
{
    let t = trim_whitespace(path);
    let tn = t.unicode_len();
    let body = if tn >= 2 && t.get_char(0) == 'm' && t.get_char(1) == '/' {
        t.substring_char(2, tn)
    } else {
        t.substring_char(0, tn)
    };
    assert(body@ == spec_path_body(path@)) by {
        assert(t@.subrange(2, tn as int) =~= t@.skip(2));
        assert(t@.subrange(0, tn as int) =~= t@);
    }
    let n = body.unicode_len();
    if n == 0 {
        return Ok(Vec::new());
    }
    let ghost whole = spec_parse_components(split_slash(body@));
    let mut out: Vec<u32> = Vec::new();
    let mut seg: usize = 0;
    let mut i: usize = 0;
    assert(body@.skip(0) =~= body@);
    assert(prepend_components(out@, whole) == whole) by {
        if let Ok(v) = whole {
            assert(out@ + v =~= v);
        }
    }
    loop
        invariant
            seg <= i <= n,
            n == body@.len(),
            n > 0,
            whole == spec_parse_components(split_slash(body@)),
            whole == spec_parse_bip32_path(path@),
            forall|k: int| seg <= k < i ==> body@[k] != '/',
            whole == prepend_components(out@, spec_parse_components(split_slash(body@.skip(seg as int)))),
        decreases n - i,
    {
        if i == n || body.get_char(i) == '/' {
            let raw = body.substring_char(seg, i);
            let ghost rest = if i == n {
                Seq::<Seq<char>>::empty()
            } else {
                split_slash(body@.skip(i + 1))
            };
            proof {
                if i == n {
                    lemma_split_last(body@, seg as int);
                    assert(body@.skip(seg as int) =~= raw@);
                } else {
                    lemma_split_piece(body@, seg as int, i as int);
                }
                let pieces = split_slash(body@.skip(seg as int));
                assert(pieces =~= seq![raw@] + rest);
                assert(pieces.drop_first() =~= rest);
            }
            match parse_component(raw) {
                Err(e) => {
                    return Err(e);
                },
                Ok(c) => {
                    let ghost old_out = out@;
                    out.push(c);
                    proof {
                        if let Ok(v) = spec_parse_components(rest) {
                            assert(old_out + (seq![c] + v) =~= out@ + v);
                        }
                    }
                    if i == n {
                        assert(out@ + seq![] =~= out@);
                        return Ok(out);
                    }
                    seg = i + 1;
                },
            }
        }
        i = i + 1;
    }
}

/// Law: the decimal rendering of `n` is a non-empty string of decimal
/// digits whose value is `n`.
pub proof fn lemma_decimal_digits(n: nat)
    ensures
        spec_decimal(n).len() >= 1,
        all_decimal(spec_decimal(n)),
        decimal_value(spec_decimal(n)) == n,
        forall|i: int|
            0 <= i < spec_decimal(n).len() ==> {
                let c = #[trigger] spec_decimal(n)[i];
                c != '/' && c != '+' && !is_unicode_whitespace(c)
            },
    decreases n,
{
    let d = spec_decimal(n);
    if n >= 10 {
        lemma_decimal_digits(n / 10);
        let p = spec_decimal(n / 10);
        assert(d.drop_last() =~= p);
        assert forall|i: int| 0 <= i < d.len() implies 48 <= (#[trigger] d[i]) as u32 <= 57 by {
            if i < p.len() {
                assert(d[i] == p[i]);
            }
        }
        assert(d.last() as u32 == 48 + n % 10);
        assert(decimal_value(d) == decimal_value(p) * 10 + n % 10);
        assert((n / 10) * 10 + n % 10 == n) by (nonlinear_arith);
        assert forall|i: int| 0 <= i < d.len() implies {
            let c = #[trigger] d[i];
            c != '/' && c != '+' && !is_unicode_whitespace(c)
        } by {
            if i < p.len() {
                assert(d[i] == p[i]);
            }
        }
    } else {
        assert(d.drop_last() =~= Seq::<char>::empty());
        assert(decimal_value(d.drop_last()) == 0);
        assert(d.last() as u32 == 48 + n);
    }
}

proof fn lemma_component_44()
    ensures
        spec_parse_component(seq!['4', '4', '\'']) == Ok::<u32, LedgerSolErrorModel>(spec_harden(44)),
{
    let p = seq!['4', '4', '\''];
    assert(p.drop_last() =~= seq!['4', '4']);
    assert(seq!['4', '4'].drop_last() =~= seq!['4']);
    assert(seq!['4'].drop_last() =~= Seq::<char>::empty());
    assert(decimal_value(Seq::<char>::empty()) == 0);
    assert(decimal_value(seq!['4']) == 4);
    assert(decimal_value(seq!['4', '4']) == 44);
    assert(spec_parse_u32(seq!['4', '4']) == Some(44u32));
}

proof fn lemma_component_501()
    ensures
        spec_parse_component(seq!['5', '0', '1', '\'']) == Ok::<u32, LedgerSolErrorModel>(
            spec_harden(501),
        ),
{
    let p = seq!['5', '0', '1', '\''];
    assert(p.drop_last() =~= seq!['5', '0', '1']);
    assert(seq!['5', '0', '1'].drop_last() =~= seq!['5', '0']);
    assert(seq!['5', '0'].drop_last() =~= seq!['5']);
    assert(seq!['5'].drop_last() =~= Seq::<char>::empty());
    assert(decimal_value(Seq::<char>::empty()) == 0);
    assert(decimal_value(seq!['5']) == 5);
    assert(decimal_value(seq!['5', '0']) == 50);
    assert(decimal_value(seq!['5', '0', '1']) == 501);
    assert(spec_parse_u32(seq!['5', '0', '1']) == Some(501u32));
}

proof fn lemma_component_0()
    ensures
        spec_parse_component(seq!['0', '\'']) == Ok::<u32, LedgerSolErrorModel>(spec_harden(0)),
{
    let p = seq!['0', '\''];
    assert(p.drop_last() =~= seq!['0']);
    assert(seq!['0'].drop_last() =~= Seq::<char>::empty());
    assert(decimal_value(Seq::<char>::empty()) == 0);
    assert(decimal_value(seq!['0']) == 0);
    assert(spec_parse_u32(seq!['0']) == Some(0u32));
}

/// Law: `'` and `h` mark a hardened component alike: with either suffix the
/// same digits give the same component, and both are refused together (the
/// refusal's reason quotes the component as written).
pub proof fn lemma_hardened_suffixes_agree(digits: Seq<char>)
    ensures
        spec_parse_component(digits.push('\'')) is Ok <==> spec_parse_component(digits.push('h')) is Ok,
        spec_parse_component(digits.push('\'')) is Ok ==> spec_parse_component(digits.push('h'))
            == spec_parse_component(digits.push('\'')),
{
    assert(digits.push('\'').drop_last() =~= digits);
    assert(digits.push('h').drop_last() =~= digits);
}

/// Law: the standard account path is the path written
/// `m/44'/501'/{account}'/0'`: parsing that text gives
/// `standard_solana_path(account)`, for every account below 2^31 (a larger
/// account is refused by the parser as out of range).
pub proof fn lemma_standard_path_text(account: u32)
    requires
        account < HARDENED_BIT,
    ensures
        spec_parse_bip32_path("m/44'/501'/"@ + spec_decimal(account as nat) + "'/0'"@) == Ok::<
            Seq<u32>,
            LedgerSolErrorModel,
        >(spec_standard_solana_path(account)),
{
    reveal_strlit("m/44'/501'/");
    reveal_strlit("'/0'");
    let d = spec_decimal(account as nat);
    lemma_decimal_digits(account as nat);
    let text = "m/44'/501'/"@ + d + "'/0'"@;
    let l = d.len() as int;
    assert forall|i: int| 0 <= i < text.len() implies !is_unicode_whitespace(#[trigger] text[i]) by {
        if 11 <= i < 11 + l {
            assert(text[i] == d[i - 11]);
        }
    }
    lemma_trim_no_whitespace(text);
    let body = text.skip(2);
    assert(spec_path_body(text) == body);
    assert forall|k: int| 9 <= k < 9 + l implies body[k] == d[k - 9] by {}
    assert(body[3] == '/');
    assert(body[8] == '/');
    assert(body[10 + l] == '/');
    assert forall|k: int| 0 <= k < 3 implies body[k] != '/' by {}
    assert forall|k: int| 4 <= k < 8 implies body[k] != '/' by {}
    assert forall|k: int| 9 <= k < 10 + l implies body[k] != '/' by {
        if k < 9 + l {
            assert(body[k] == d[k - 9]);
        }
    }
    assert forall|k: int| 11 + l <= k < body.len() implies body[k] != '/' by {}
    lemma_split_piece(body, 0, 3);
    lemma_split_piece(body, 4, 8);
    lemma_split_piece(body, 9, 10 + l);
    lemma_split_last(body, 11 + l);
    assert(body.skip(0) =~= body);
    let p0 = body.subrange(0, 3);
    let p1 = body.subrange(4, 8);
    let p2 = body.subrange(9, 10 + l);
    let p3 = body.skip(11 + l);
    let pieces = split_slash(body);
    assert(pieces =~= seq![p0, p1, p2, p3]);
    assert(p0 =~= seq!['4', '4', '\'']);
    lemma_component_44();
    assert(p1 =~= seq!['5', '0', '1', '\'']);
    lemma_component_501();
    // {account}'
    assert(p2.drop_last() =~= d);
    assert(spec_parse_component(p2) == Ok::<u32, LedgerSolErrorModel>(spec_harden(account)));
    // 0'
    assert(p3 =~= seq!['0', '\'']);
    lemma_component_0();
    assert(pieces.drop_first() =~= seq![p1, p2, p3]);
    assert(seq![p1, p2, p3].drop_first() =~= seq![p2, p3]);
    assert(seq![p2, p3].drop_first() =~= seq![p3]);
    assert(seq![p3].drop_first() =~= Seq::<Seq<char>>::empty());
    assert(spec_parse_components(seq![p3]) == Ok::<Seq<u32>, LedgerSolErrorModel>(
        seq![spec_harden(0)],
    )) by {
        assert(seq![p3][0] == p3);
        assert(spec_parse_components(Seq::<Seq<char>>::empty()) == Ok::<
            Seq<u32>,
            LedgerSolErrorModel,
        >(seq![]));
        assert(seq![spec_harden(0)] + Seq::<u32>::empty() =~= seq![spec_harden(0)]);
    }
    assert(spec_parse_components(seq![p2, p3]) == Ok::<Seq<u32>, LedgerSolErrorModel>(
        seq![spec_harden(account), spec_harden(0)],
    )) by {
        assert(seq![spec_harden(account)] + seq![spec_harden(0)] =~= seq![
            spec_harden(account),
            spec_harden(0),
        ]);
    }
    assert(spec_parse_components(seq![p1, p2, p3]) == Ok::<Seq<u32>, LedgerSolErrorModel>(
        seq![spec_harden(501), spec_harden(account), spec_harden(0)],
    )) by {
        assert(seq![spec_harden(501)] + seq![spec_harden(account), spec_harden(0)] =~= seq![
            spec_harden(501),
            spec_harden(account),
            spec_harden(0),
        ]);
    }
    assert(spec_parse_components(pieces) == Ok::<Seq<u32>, LedgerSolErrorModel>(
        spec_standard_solana_path(account),
    )) by {
        assert(seq![spec_harden(44)] + seq![spec_harden(501), spec_harden(account), spec_harden(0)]
            =~= spec_standard_solana_path(account));
    }
}

/// Law: `u32::from_str` reads back the decimal rendering of every value
/// that fits (also after a `+` sign), and refuses the rendering of every
/// value that does not.
pub proof fn lemma_parse_u32_decimal(n: nat)
    ensures
        n <= u32::MAX ==> spec_parse_u32(spec_decimal(n)) == Some(n as u32),
        n <= u32::MAX ==> spec_parse_u32(seq!['+'] + spec_decimal(n)) == Some(n as u32),
        n > u32::MAX ==> spec_parse_u32(spec_decimal(n)) is None,
{
    lemma_decimal_digits(n);
    let d = spec_decimal(n);
    assert(d[0] != '+');
    assert((seq!['+'] + d).drop_first() =~= d);
}

/// Law: `u32::from_str` refuses any text holding a character that is not a
/// decimal digit, other than a single leading `+`.
pub proof fn lemma_parse_u32_rejects(s: Seq<char>, i: int)
    requires
        0 <= i < s.len(),
        !(48 <= s[i] as u32 <= 57),
        !(i == 0 && s[0] == '+'),
    ensures
        spec_parse_u32(s) is None,
{
    if s.len() > 0 && s[0] == '+' {
        assert(s.drop_first()[i - 1] == s[i]);
    }
}

/// Law: a component that parses is hardened (at least 2^31) exactly when
/// it is written with a trailing `'` or `h`, and its low 31 bits are below
/// 2^31 either way.
pub proof fn lemma_component_hardening(raw: Seq<char>)
    ensures
        spec_parse_component(raw) matches Ok(c) ==> (c >= 0x8000_0000 <==> (raw.len() > 0 && (
        raw.last() == '\'' || raw.last() == 'h'))),
{
    if let Ok(c) = spec_parse_component(raw) {
        let hardened = raw.len() > 0 && (raw.last() == '\'' || raw.last() == 'h');
        let digits = if hardened {
            raw.drop_last()
        } else {
            raw
        };
        let n = spec_parse_u32(digits)->Some_0;
        lemma_harden_sets_only_top_bit(n);
    }
}

/// The pieces joined with `/` between them.
pub open spec fn join_slash(pieces: Seq<Seq<char>>) -> Seq<char>
    decreases pieces.len(),
{
    if pieces.len() == 0 {
        seq![]
    } else if pieces.len() == 1 {
        pieces[0]
    } else {
        pieces[0] + seq!['/'] + join_slash(pieces.drop_first())
    }
}

/// Whether `piece` holds no `/`.
pub open spec fn no_slash(piece: Seq<char>) -> bool {
    forall|k: int| 0 <= k < piece.len() ==> piece[k] != '/'
}

/// Law: splitting at `/` loses nothing and cuts only at `/`: there is at
/// least one piece, no piece holds a `/`, and joining the pieces with `/`
/// gives the text back.
pub proof fn lemma_split_join(s: Seq<char>)
    ensures
        split_slash(s).len() >= 1,
        forall|i: int| 0 <= i < split_slash(s).len() ==> no_slash(#[trigger] split_slash(s)[i]),
        join_slash(split_slash(s)) == s,
    decreases s.len(),
{
    if s.len() > 0 {
        let t = s.drop_first();
        lemma_split_join(t);
        let r = split_slash(t);
        let sp = split_slash(s);
        if s[0] == '/' {
            assert(sp.drop_first() =~= r);
            assert(sp[0] =~= Seq::<char>::empty());
            assert forall|i: int| 0 <= i < sp.len() implies no_slash(#[trigger] sp[i]) by {
                if i > 0 {
                    assert(sp[i] == r[i - 1]);
                }
            }
            assert(join_slash(sp) =~= s);
        } else {
            let first = seq![s[0]] + r[0];
            assert(sp[0] == first);
            assert forall|i: int| 0 <= i < sp.len() implies no_slash(#[trigger] sp[i]) by {
                if i == 0 {
                    assert(no_slash(r[0]));
                    assert forall|k: int| 0 <= k < first.len() implies first[k] != '/' by {
                        if k > 0 {
                            assert(first[k] == r[0][k - 1]);
                        }
                    }
                } else {
                    assert(sp[i] == r[i]);
                }
            }
            assert(s =~= seq![s[0]] + t);
            if r.len() == 1 {
                assert(join_slash(r) == r[0]);
                assert(sp.len() == 1);
                assert(join_slash(sp) == sp[0]);
                assert(join_slash(sp) =~= s);
            } else {
                assert(sp.drop_first() =~= r.drop_first());
                assert(join_slash(r) == r[0] + seq!['/'] + join_slash(r.drop_first()));
                assert(join_slash(sp) =~= s);
            }
        }
    } else {
        assert(split_slash(s)[0] =~= Seq::<char>::empty());
    }
}

/// Joining pieces without `/` and splitting again gives the pieces back.
proof fn lemma_join_split(pieces: Seq<Seq<char>>)
    requires
        pieces.len() >= 1,
        forall|i: int| 0 <= i < pieces.len() ==> no_slash(#[trigger] pieces[i]),
    ensures
        split_slash(join_slash(pieces)) == pieces,
    decreases pieces.len(),
{
    let p0 = pieces[0];
    assert(no_slash(p0));
    if pieces.len() == 1 {
        lemma_split_last(p0, 0);
        assert(p0.skip(0) =~= p0);
        assert(split_slash(join_slash(pieces)) =~= pieces);
    } else {
        let rest = pieces.drop_first();
        assert forall|i: int| 0 <= i < rest.len() implies no_slash(#[trigger] rest[i]) by {
            assert(rest[i] == pieces[i + 1]);
        }
        lemma_join_split(rest);
        let s = join_slash(pieces);
        let l = p0.len() as int;
        assert(s == p0 + seq!['/'] + join_slash(rest));
        assert forall|k: int| 0 <= k < l implies s[k] != '/' by {
            assert(s[k] == p0[k]);
        }
        lemma_split_piece(s, 0, l);
        assert(s.skip(0) =~= s);
        assert(s.subrange(0, l) =~= p0);
        assert(s.skip(l + 1) =~= join_slash(rest));
        assert(split_slash(s) =~= pieces);
    }
}

/// The text of a component: its decimal index, followed by `'` when
/// hardened.
pub open spec fn spec_format_component(c: u32) -> Seq<char> {
    if c >= HARDENED_BIT {
        spec_decimal((c - HARDENED_BIT) as nat).push('\'')
    } else {
        spec_decimal(c as nat)
    }
}

/// The text `m/c1/c2/...` of a derivation path.
pub open spec fn spec_format_path(components: Seq<u32>) -> Seq<char> {
    seq!['m', '/'] + join_slash(components.map_values(|c: u32| spec_format_component(c)))
}

proof fn lemma_format_component(c: u32)
    ensures
        spec_parse_component(spec_format_component(c)) == Ok::<u32, LedgerSolErrorModel>(c),
        spec_format_component(c).len() >= 1,
        no_slash(spec_format_component(c)),
        forall|k: int|
            0 <= k < spec_format_component(c).len() ==> !is_unicode_whitespace(
                #[trigger] spec_format_component(c)[k],
            ),
{
    let raw = spec_format_component(c);
    if c >= HARDENED_BIT {
        let n = (c - HARDENED_BIT) as nat;
        let d = spec_decimal(n);
        lemma_decimal_digits(n);
        assert(raw.drop_last() =~= d);
        assert(raw.last() == '\'');
        assert(d[0] != '+');
        assert(spec_parse_u32(d) == Some(n as u32));
        lemma_harden_sets_only_top_bit(n as u32);
        assert forall|k: int| 0 <= k < raw.len() implies raw[k] != '/' && !is_unicode_whitespace(
            #[trigger] raw[k],
        ) by {
            if k < d.len() {
                assert(raw[k] == d[k]);
            }
        }
    } else {
        lemma_decimal_digits(c as nat);
        assert(raw[0] != '+');
        assert(48 <= raw.last() as u32 <= 57);
        assert(raw.last() != '\'' && raw.last() != 'h');
        assert(spec_parse_u32(raw) == Some(c));
    }
}

proof fn lemma_parse_formatted_components(cs: Seq<u32>)
    ensures
        spec_parse_components(cs.map_values(|c: u32| spec_format_component(c))) == Ok::<
            Seq<u32>,
            LedgerSolErrorModel,
        >(cs),
    decreases cs.len(),
{
    let ps = cs.map_values(|c: u32| spec_format_component(c));
    if cs.len() > 0 {
        lemma_format_component(cs[0]);
        let rest = cs.drop_first();
        lemma_parse_formatted_components(rest);
        assert(ps[0] == spec_format_component(cs[0]));
        assert(ps.drop_first() =~= rest.map_values(|c: u32| spec_format_component(c)));
        assert(spec_parse_components(ps) == Ok::<Seq<u32>, LedgerSolErrorModel>(seq![cs[0]] + rest));
        assert(seq![cs[0]] + rest =~= cs);
    } else {
        assert(ps =~= Seq::<Seq<char>>::empty());
        assert(cs =~= Seq::<u32>::empty());
    }
}

proof fn lemma_join_chars(pieces: Seq<Seq<char>>)
    requires
        pieces.len() >= 1,
        forall|i: int, k: int|
            0 <= i < pieces.len() && 0 <= k < pieces[i].len() ==> !is_unicode_whitespace(
                #[trigger] pieces[i][k],
            ),
    ensures
        join_slash(pieces).len() >= pieces[0].len(),
        forall|k: int|
            0 <= k < join_slash(pieces).len() ==> !is_unicode_whitespace(
                #[trigger] join_slash(pieces)[k],
            ),
    decreases pieces.len(),
{
    if pieces.len() > 1 {
        let rest = pieces.drop_first();
        assert forall|i: int, k: int|
            0 <= i < rest.len() && 0 <= k < rest[i].len() implies !is_unicode_whitespace(
            #[trigger] rest[i][k],
        ) by {
            assert(rest[i] == pieces[i + 1]);
        }
        lemma_join_chars(rest);
        let j = join_slash(pieces);
        let p0 = pieces[0];
        assert(j == p0 + seq!['/'] + join_slash(rest));
        assert forall|k: int| 0 <= k < j.len() implies !is_unicode_whitespace(#[trigger] j[k]) by {
            if k < p0.len() {
                assert(j[k] == pieces[0][k]);
            } else if k > p0.len() {
                assert(j[k] == join_slash(rest)[k - p0.len() - 1]);
            }
        }
    } else {
        assert forall|k: int| 0 <= k < join_slash(pieces).len() implies !is_unicode_whitespace(
            #[trigger] join_slash(pieces)[k],
        ) by {
            assert(join_slash(pieces)[k] == pieces[0][k]);
        }
    }
}

/// Law: parsing the text of a path gives its components back, whatever
/// they are: `m/` followed by the components' decimal indices separated by
/// `/`, each hardened one followed by `'`, parses to exactly those
/// components, in order and with none added or dropped.
pub proof fn lemma_parse_format_round_trip(components: Seq<u32>)
    ensures
        spec_parse_bip32_path(spec_format_path(components)) == Ok::<Seq<u32>, LedgerSolErrorModel>(
            components,
        ),
{
    let ps = components.map_values(|c: u32| spec_format_component(c));
    let text = spec_format_path(components);
    let j = join_slash(ps);
    if components.len() == 0 {
        assert(ps =~= Seq::<Seq<char>>::empty());
        assert(text =~= seq!['m', '/']);
        lemma_trim_no_whitespace(text);
        assert(spec_path_body(text) =~= Seq::<char>::empty());
        assert(components =~= Seq::<u32>::empty());
    } else {
        assert forall|i: int| 0 <= i < ps.len() implies no_slash(#[trigger] ps[i]) by {
            lemma_format_component(components[i]);
        }
        assert forall|i: int, k: int|
            0 <= i < ps.len() && 0 <= k < ps[i].len() implies !is_unicode_whitespace(
            #[trigger] ps[i][k],
        ) by {
            lemma_format_component(components[i]);
        }
        lemma_format_component(components[0]);
        lemma_join_chars(ps);
        assert forall|k: int| 0 <= k < text.len() implies !is_unicode_whitespace(#[trigger] text[k]) by {
            if k >= 2 {
                assert(text[k] == j[k - 2]);
            }
        }
        lemma_trim_no_whitespace(text);
        assert(text.skip(2) =~= j);
        assert(spec_path_body(text) == j);
        lemma_join_split(ps);
        lemma_parse_formatted_components(components);
    }
}

proof fn lemma_components_per_piece(pieces: Seq<Seq<char>>)
    ensures
        spec_parse_components(pieces) matches Ok(c) ==> {
            &&& c.len() == pieces.len()
            &&& forall|i: int|
                0 <= i < pieces.len() ==> spec_parse_component(#[trigger] pieces[i]) == Ok::<
                    u32,
                    LedgerSolErrorModel,
                >(c[i])
        },
    decreases pieces.len(),
{
    if pieces.len() > 0 {
        let rest = pieces.drop_first();
        lemma_components_per_piece(rest);
        if let Ok(c) = spec_parse_components(pieces) {
            let cs = spec_parse_components(rest)->Ok_0;
            assert(c == seq![c[0]] + cs);
            assert forall|i: int| 0 <= i < pieces.len() implies spec_parse_component(
                #[trigger] pieces[i],
            ) == Ok::<u32, LedgerSolErrorModel>(c[i]) by {
                if i > 0 {
                    assert(pieces[i] == rest[i - 1]);
                }
            }
        }
    }
}

/// Law: a path that parses gives one component per `/`-separated piece of
/// its body, in order, each the parse of its piece; an empty body gives no
/// component.
pub proof fn lemma_parse_one_component_per_piece(path: Seq<char>)
    ensures
        spec_parse_bip32_path(path) matches Ok(c) ==> {
            let body = spec_path_body(path);
            &&& body.len() == 0 ==> c.len() == 0
            &&& body.len() > 0 ==> {
                &&& c.len() == split_slash(body).len()
                &&& forall|i: int|
                    0 <= i < c.len() ==> spec_parse_component(#[trigger] split_slash(body)[i])
                        == Ok::<u32, LedgerSolErrorModel>(c[i])
            }
        },
{
    let body = spec_path_body(path);
    if body.len() > 0 {
        lemma_components_per_piece(split_slash(body));
    }
}

/// Big-endian bytes of a 32-bit word.
pub open spec fn be32(x: u32) -> Seq<u8> {
    seq![
        (x / 0x100_0000) as u8,
        ((x / 0x1_0000) % 0x100) as u8,
        ((x / 0x100) % 0x100) as u8,
        (x % 0x100) as u8,
    ]
}

/// The big-endian bytes of each word, in order.
pub open spec fn be_words(c: Seq<u32>) -> Seq<u8>
    decreases c.len(),
{
    if c.len() == 0 {
        seq![]
    } else {
        be_words(c.drop_last()) + be32(c.last())
    }
}

/// The wire form of a derivation path: a count byte (the number of
/// components modulo 256) followed by each component big-endian.
pub open spec fn spec_encode_path(components: Seq<u32>) -> Seq<u8> {
    seq![(components.len() % 256) as u8] + be_words(components)
}

proof fn lemma_be_words(c: Seq<u32>)
    ensures
        be_words(c).len() == 4 * c.len(),
        forall|i: int|
            0 <= i < c.len() ==> {
                let w = be_words(c);
                (w[4 * i] as int) * 0x100_0000 + (w[4 * i + 1] as int) * 0x1_0000 + (w[4 * i + 2]
                    as int) * 0x100 + (w[4 * i + 3] as int) == #[trigger] c[i] as int
            },
    decreases c.len(),
{
    if c.len() > 0 {
        let p = c.drop_last();
        lemma_be_words(p);
        let w = be_words(c);
        let x = c.last();
        assert(w == be_words(p) + be32(x));
        assert((x / 0x100_0000) * 0x100_0000 + ((x / 0x1_0000) % 0x100) * 0x1_0000 + ((x / 0x100)
            % 0x100) * 0x100 + x % 0x100 == x) by (nonlinear_arith)
            requires
                x <= 0xffff_ffff,
        ;
        assert(x / 0x100_0000 < 0x100) by (nonlinear_arith)
            requires
                x <= 0xffff_ffff,
        ;
        assert forall|i: int| 0 <= i < c.len() implies {
            (w[4 * i] as int) * 0x100_0000 + (w[4 * i + 1] as int) * 0x1_0000 + (w[4 * i + 2]
                as int) * 0x100 + (w[4 * i + 3] as int) == #[trigger] c[i] as int
        } by {
            if i < p.len() {
                assert(c[i] == p[i]);
                assert(w[4 * i] == be_words(p)[4 * i]);
                assert(w[4 * i + 1] == be_words(p)[4 * i + 1]);
                assert(w[4 * i + 2] == be_words(p)[4 * i + 2]);
                assert(w[4 * i + 3] == be_words(p)[4 * i + 3]);
            }
        }
    }
}

/// Law: the wire form of a path is a count byte (the number of components
/// modulo 256) followed by four bytes per component, most significant
/// first, in order: bytes `1 + 4i .. 5 + 4i` hold component `i`.
pub proof fn lemma_encode_path_layout(components: Seq<u32>)
    ensures
        ({
            let e = spec_encode_path(components);
            &&& e.len() == 1 + 4 * components.len()
            &&& e[0] as int == components.len() % 256
            &&& forall|i: int|
                0 <= i < components.len() ==> (e[1 + 4 * i] as int) * 0x100_0000 + (e[2 + 4 * i]
                    as int) * 0x1_0000 + (e[3 + 4 * i] as int) * 0x100 + (e[4 + 4 * i] as int)
                    == #[trigger] components[i] as int
        }),
{
    lemma_be_words(components);
    let e = spec_encode_path(components);
    let w = be_words(components);
    assert forall|i: int| 0 <= i < components.len() implies (e[1 + 4 * i] as int) * 0x100_0000 + (e[2
        + 4 * i] as int) * 0x1_0000 + (e[3 + 4 * i] as int) * 0x100 + (e[4 + 4 * i] as int)
        == #[trigger] components[i] as int by {
        assert(e[1 + 4 * i] == w[4 * i]);
        assert(e[2 + 4 * i] == w[4 * i + 1]);
        assert(e[3 + 4 * i] == w[4 * i + 2]);
        assert(e[4 + 4 * i] == w[4 * i + 3]);
    }
}

/// Law: the signing payload is the signer count 1, then the wire form of
/// the path, then the message unchanged.
pub proof fn lemma_sign_payload_layout(components: Seq<u32>, message: Seq<u8>)
    ensures
        ({
            let p = spec_sign_payload(components, message);
            &&& p.len() == 2 + 4 * components.len() + message.len()
            &&& p[0] == 1
            &&& p.subrange(1, (2 + 4 * components.len()) as int) == spec_encode_path(components)
            &&& p.skip((2 + 4 * components.len()) as int) == message
        }),
{
    lemma_encode_path_layout(components);
    let p = spec_sign_payload(components, message);
    let k = (2 + 4 * components.len()) as int;
    assert(p.subrange(1, k) =~= spec_encode_path(components));
    assert(p.skip(k) =~= message);
}

/// Encodes a derivation path as the Solana app expects it: a count byte
/// followed by the big-endian components.
pub fn encode_path(components: &[u32]) -> (out: Vec<u8>)
    ensures
        out@ == spec_encode_path(components@),
{
    let len = components.len();
    let mut out: Vec<u8> = Vec::new();
    let count = len as u8;
    assert(count == (len % 256) as u8) by (bit_vector)
        requires
            count == len as u8,
    ;
    out.push(count);
    for i in 0..len
        invariant
            len == components@.len(),
            out@ == seq![(len % 256) as u8] + be_words(components@.take(i as int)),
    {
        let c = components[i];
        let b0 = (c >> 24) as u8;
        let b1 = ((c >> 16) & 0xff) as u8;
        let b2 = ((c >> 8) & 0xff) as u8;
        let b3 = (c & 0xff) as u8;
        assert(b0 == (c / 0x100_0000) as u8 && b1 == ((c / 0x1_0000) % 0x100) as u8 && b2 == ((c
            / 0x100) % 0x100) as u8 && b3 == (c % 0x100) as u8) by (bit_vector)
            requires
                b0 == (c >> 24) as u8,
                b1 == ((c >> 16) & 0xff) as u8,
                b2 == ((c >> 8) & 0xff) as u8,
                b3 == (c & 0xff) as u8,
        ;
        out.push(b0);
        out.push(b1);
        out.push(b2);
        out.push(b3);
        assert(components@.take(i + 1).drop_last() =~= components@.take(i as int));
        assert(out@ =~= seq![(len % 256) as u8] + be_words(components@.take(i + 1)));
    }
    assert(components@.take(len as int) =~= components@);
    out
}

/// The SIGN_MESSAGE / SIGN_OFFCHAIN_MESSAGE payload: one signer, its
/// encoded path, then the message.
pub open spec fn spec_sign_payload(components: Seq<u32>, message: Seq<u8>) -> Seq<u8> {
    seq![1u8] + spec_encode_path(components) + message
}

/// Builds the signing payload `[num_signers = 1] [path] [message]`.
pub fn build_sign_payload(components: &[u32], message: &[u8]) -> (out: Vec<u8>)
    ensures
        out@ == spec_sign_payload(components@, message@),
{
    let mut out: Vec<u8> = Vec::new();
    out.push(1);
    let path = encode_path(components);
    push_all(&mut out, path.as_slice());
    push_all(&mut out, message);
    assert(out@ =~= spec_sign_payload(components@, message@));
    out
}

} // verus!
