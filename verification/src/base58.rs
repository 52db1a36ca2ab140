//! Base58 (Bitcoin alphabet), the encoding Solana uses for keys and
//! signatures. The conversions themselves are made by the `bs58` crate.

use vstd::prelude::*;
use crate::text::{is_unicode_whitespace, spec_trim, lemma_trim_no_whitespace};

verus! {

/// The base58 character of digit `d` in the Bitcoin alphabet
/// `123456789ABCDEFGHJKLMNPQRSTUVWXYZabcdefghijkmnopqrstuvwxyz`.
pub open spec fn base58_char(d: nat) -> char {
    if d < 9 {
        (49 + d) as char
    } else if d < 17 {
        (56 + d) as char
    } else if d < 22 {
        (57 + d) as char
    } else if d < 33 {
        (58 + d) as char
    } else if d < 44 {
        (64 + d) as char
    } else {
        (65 + d) as char
    }
}

/// The digit of a base58 character, if `c` belongs to the alphabet.
pub open spec fn base58_digit(c: char) -> Option<nat> {
    let u = c as int;
    if 49 <= u <= 57 {
        Some((u - 49) as nat)
    } else if 65 <= u <= 72 {
        Some((u - 56) as nat)
    } else if 74 <= u <= 78 {
        Some((u - 57) as nat)
    } else if 80 <= u <= 90 {
        Some((u - 58) as nat)
    } else if 97 <= u <= 107 {
        Some((u - 64) as nat)
    } else if 109 <= u <= 122 {
        Some((u - 65) as nat)
    } else {
        None
    }
}

/// The big-endian value of a byte sequence.
pub open spec fn be_value(b: Seq<u8>) -> nat
    decreases b.len(),
{
    if b.len() == 0 {
        0
    } else {
        be_value(b.drop_last()) * 256 + b.last() as nat
    }
}

/// Number of leading zero bytes.
pub open spec fn leading_zero_bytes(b: Seq<u8>) -> nat
    decreases b.len(),
{
    if b.len() > 0 && b[0] == 0 {
        1 + leading_zero_bytes(b.drop_first())
    } else {
        0
    }
}

/// The base58 digits of `n`, most significant first, without leading zeros.
pub open spec fn base58_digits(n: nat) -> Seq<char>
    decreases n,
{
    if n == 0 {
        seq![]
    } else {
        base58_digits(n / 58).push(base58_char(n % 58))
    }
}

/// Base58 encoding: one `1` per leading zero byte, then the base58 digits of
/// the big-endian value.
pub open spec fn base58_encoding(b: Seq<u8>) -> Seq<char> {
    Seq::new(leading_zero_bytes(b), |i: int| '1') + base58_digits(be_value(b))
}

/// Whether every character belongs to the base58 alphabet.
pub open spec fn is_base58(s: Seq<char>) -> bool {
    forall|i: int| 0 <= i < s.len() ==> (#[trigger] base58_digit(s[i])) is Some
}

/// The value of a base58 digit string, most significant first.
pub open spec fn base58_value(s: Seq<char>) -> nat
    decreases s.len(),
{
    if s.len() == 0 {
        0
    } else {
        base58_value(s.drop_last()) * 58 + base58_digit(s.last()).unwrap()
    }
}

/// Number of leading `1` characters.
pub open spec fn leading_ones(s: Seq<char>) -> nat
    decreases s.len(),
{
    if s.len() > 0 && s[0] == '1' {
        1 + leading_ones(s.drop_first())
    } else {
        0
    }
}

/// The big-endian bytes of `n`, without leading zeros.
pub open spec fn min_be_bytes(n: nat) -> Seq<u8>
    decreases n,
{
    if n == 0 {
        seq![]
    } else {
        min_be_bytes(n / 256).push((n % 256) as u8)
    }
}

/// Base58 decoding: `None` if a character is outside the alphabet, else one
/// zero byte per leading `1` followed by the big-endian bytes of the value.
pub open spec fn base58_decoding(s: Seq<char>) -> Option<Seq<u8>> {
    if is_base58(s) {
        Some(Seq::new(leading_ones(s), |i: int| 0u8) + min_be_bytes(base58_value(s)))
    } else {
        None
    }
}

/// Law: digit `d` is written as the `d`-th character of the Bitcoin
/// alphabet, and exactly the alphabet's characters decode, each to its
/// position.
pub proof fn lemma_base58_alphabet(d: nat, c: char)
    ensures
        d < 58 ==> base58_char(d)
            == "123456789ABCDEFGHJKLMNPQRSTUVWXYZabcdefghijkmnopqrstuvwxyz"@[d as int],
        base58_digit(c) matches Some(k) ==> k < 58 && base58_char(k) == c,
        (exists|i: int|
            0 <= i < 58 && "123456789ABCDEFGHJKLMNPQRSTUVWXYZabcdefghijkmnopqrstuvwxyz"@[i] == c)
            ==> base58_digit(c) is Some,
{
    reveal_strlit("123456789ABCDEFGHJKLMNPQRSTUVWXYZabcdefghijkmnopqrstuvwxyz");
    if let Some(k) = base58_digit(c) {
        assert((base58_char(k) as u32) == (c as u32));
    }
}

proof fn lemma_base58_char_digit(d: nat)
    requires
        d < 58,
    ensures
        base58_digit(base58_char(d)) == Some(d),
        (base58_char(d) == '1') <==> d == 0,
        !is_unicode_whitespace(base58_char(d)),
{
}

proof fn lemma_digits_value(n: nat)
    ensures
        is_base58(base58_digits(n)),
        base58_value(base58_digits(n)) == n,
        n > 0 ==> base58_digits(n)[0] != '1',
        forall|i: int|
            0 <= i < base58_digits(n).len() ==> !is_unicode_whitespace(
                #[trigger] base58_digits(n)[i],
            ),
    decreases n,
{
    if n > 0 {
        lemma_digits_value(n / 58);
        lemma_base58_char_digit(n % 58);
        let d = base58_digits(n);
        let p = base58_digits(n / 58);
        assert(d.drop_last() =~= p);
        assert forall|i: int| 0 <= i < d.len() implies (#[trigger] base58_digit(d[i])) is Some by {
            if i < p.len() {
                assert(d[i] == p[i]);
            }
        }
        assert forall|i: int| 0 <= i < d.len() implies !is_unicode_whitespace(#[trigger] d[i]) by {
            if i < p.len() {
                assert(d[i] == p[i]);
            }
        }
        if n / 58 > 0 {
            assert(d[0] == p[0]);
        }
    }
}

proof fn lemma_value_skips_leading_one(s: Seq<char>)
    requires
        s.len() > 0,
        s[0] == '1',
    ensures
        base58_value(s) == base58_value(s.drop_first()),
    decreases s.len(),
{
    if s.len() > 1 {
        lemma_value_skips_leading_one(s.drop_last());
        assert(s.drop_last().drop_first() =~= s.drop_first().drop_last());
        assert(s.drop_first().last() == s.last());
    } else {
        assert(s.drop_first().len() == 0);
        assert(base58_digit(s.last()) == Some(0nat));
        assert(base58_value(s.drop_last()) == 0);
    }
}

proof fn lemma_value_skips_leading_zero(b: Seq<u8>)
    requires
        b.len() > 0,
        b[0] == 0,
    ensures
        be_value(b) == be_value(b.drop_first()),
    decreases b.len(),
{
    if b.len() > 1 {
        lemma_value_skips_leading_zero(b.drop_last());
        assert(b.drop_last().drop_first() =~= b.drop_first().drop_last());
        assert(b.drop_first().last() == b.last());
    } else {
        assert(b.drop_first().len() == 0);
        assert(be_value(b.drop_last()) == 0);
    }
}

proof fn lemma_be_value_positive(b: Seq<u8>)
    requires
        b.len() > 0,
        b[0] != 0,
    ensures
        be_value(b) > 0,
    decreases b.len(),
{
    if b.len() > 1 {
        lemma_be_value_positive(b.drop_last());
    }
}

proof fn lemma_min_be_bytes(b: Seq<u8>)
    requires
        b.len() == 0 || b[0] != 0,
    ensures
        min_be_bytes(be_value(b)) == b,
    decreases b.len(),
{
    if b.len() > 0 {
        let p = b.drop_last();
        lemma_be_value_positive(b);
        if p.len() > 0 {
            assert(p[0] == b[0]);
        }
        lemma_min_be_bytes(p);
        let n = be_value(b);
        assert(n / 256 == be_value(p) && n % 256 == b.last()) by (nonlinear_arith)
            requires
                n == be_value(p) * 256 + b.last(),
                b.last() < 256,
        ;
        assert(b =~= p.push(b.last()));
    }
}

proof fn lemma_leading_zero_bytes(b: Seq<u8>)
    ensures
        leading_zero_bytes(b) <= b.len(),
        forall|i: int| 0 <= i < leading_zero_bytes(b) ==> b[i] == 0,
        leading_zero_bytes(b) < b.len() ==> b[leading_zero_bytes(b) as int] != 0,
        be_value(b) == be_value(b.skip(leading_zero_bytes(b) as int)),
    decreases b.len(),
{
    if b.len() > 0 && b[0] == 0 {
        lemma_leading_zero_bytes(b.drop_first());
        lemma_value_skips_leading_zero(b);
        assert(b.drop_first().skip(leading_zero_bytes(b.drop_first()) as int) =~= b.skip(
            leading_zero_bytes(b) as int,
        ));
        assert forall|i: int| 0 <= i < leading_zero_bytes(b) implies b[i] == 0 by {
            if i > 0 {
                assert(b[i] == b.drop_first()[i - 1]);
            }
        }
    } else {
        assert(b.skip(0) =~= b);
    }
}

proof fn lemma_leading_ones(z: nat, d: Seq<char>)
    requires
        d.len() == 0 || d[0] != '1',
    ensures
        ({
            let s = Seq::new(z, |i: int| '1') + d;
            leading_ones(s) == z && base58_value(s) == base58_value(d)
        }),
    decreases z,
{
    let s = Seq::new(z, |i: int| '1') + d;
    if z > 0 {
        lemma_leading_ones((z - 1) as nat, d);
        assert(s.drop_first() =~= Seq::new((z - 1) as nat, |i: int| '1') + d);
        lemma_value_skips_leading_one(s);
    } else {
        assert(s =~= d);
    }
}

/// Decoding a base58 encoding gives the encoded bytes back.
pub proof fn lemma_base58_round_trip(b: Seq<u8>)
    ensures
        base58_decoding(base58_encoding(b)) == Some(b),
        is_base58(base58_encoding(b)),
        spec_trim(base58_encoding(b)) == base58_encoding(b),
{
    let z = leading_zero_bytes(b);
    let v = be_value(b);
    let s = base58_encoding(b);
    lemma_leading_zero_bytes(b);
    lemma_digits_value(v);
    lemma_leading_ones(z, base58_digits(v));
    let rest = b.skip(z as int);
    if rest.len() > 0 {
        assert(rest[0] == b[z as int]);
        lemma_be_value_positive(rest);
    }
    lemma_min_be_bytes(rest);
    assert forall|i: int| 0 <= i < s.len() implies (#[trigger] base58_digit(s[i])) is Some by {
        if i < z {
            lemma_base58_char_digit(0);
        } else {
            assert(s[i] == base58_digits(v)[i - z]);
        }
    }
    assert forall|i: int| 0 <= i < s.len() implies !is_unicode_whitespace(#[trigger] s[i]) by {
        if i >= z {
            assert(s[i] == base58_digits(v)[i - z]);
        }
    }
    lemma_trim_no_whitespace(s);
    assert(Seq::new(z, |i: int| 0u8) + rest =~= b);
}

/// `bs58::encode(bytes).into_string()`: the crate encodes with the Bitcoin
/// alphabet, one `1` per leading zero byte followed by the base58 digits of
/// the big-endian value; the contract states exactly that.
#[verifier::external_body]
pub(crate) fn bs58_encode(bytes: &[u8]) -> (s: String)
    ensures
        s@ == base58_encoding(bytes@),
{
    bs58::encode(bytes).into_string()
}

/// `bs58::decode(s).into_vec()`, with the crate's error taken as `None`. The
/// crate rejects any byte outside the Bitcoin alphabet (non-ASCII characters
/// included) and otherwise yields one zero byte per leading `1` followed by
/// the minimal big-endian bytes of the value; the contract states exactly that.
#[verifier::external_body]
pub(crate) fn bs58_decode(s: &str) -> (r: Option<Vec<u8>>)
    ensures
        r matches Some(v) ==> base58_decoding(s@) == Some(v@),
        r is None ==> base58_decoding(s@) is None,
{
    bs58::decode(s).into_vec().ok()
}

} // verus!
