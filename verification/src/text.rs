//! Character-level helpers: Unicode whitespace trimming and the decimal and
//! hexadecimal renderings used in error reasons.

use vstd::prelude::*;

verus! {

/// The Unicode `White_Space` property, which `char::is_whitespace` and
/// `str::trim` go by.
pub open spec fn is_unicode_whitespace(c: char) -> bool {
    let u = c as u32;
    ||| 0x09 <= u <= 0x0d
    ||| u == 0x20
    ||| u == 0x85
    ||| u == 0xa0
    ||| u == 0x1680
    ||| 0x2000 <= u <= 0x200a
    ||| u == 0x2028
    ||| u == 0x2029
    ||| u == 0x202f
    ||| u == 0x205f
    ||| u == 0x3000
}

/// Whether `c` is Unicode whitespace.
pub fn is_whitespace(c: char) -> (b: bool)
    ensures
        b == is_unicode_whitespace(c),
{
    let u = c as u32;
    (0x09 <= u && u <= 0x0d) || u == 0x20 || u == 0x85 || u == 0xa0 || u == 0x1680 || (0x2000
        <= u && u <= 0x200a) || u == 0x2028 || u == 0x2029 || u == 0x202f || u == 0x205f || u
        == 0x3000
}

/// `s` without its leading whitespace.
pub open spec fn spec_trim_start(s: Seq<char>) -> Seq<char>
    decreases s.len(),
{
    if s.len() > 0 && is_unicode_whitespace(s[0]) {
        spec_trim_start(s.drop_first())
    } else {
        s
    }
}

/// `s` without its trailing whitespace.
pub open spec fn spec_trim_end(s: Seq<char>) -> Seq<char>
    decreases s.len(),
{
    if s.len() > 0 && is_unicode_whitespace(s.last()) {
        spec_trim_end(s.drop_last())
    } else {
        s
    }
}

/// `s` without leading and trailing whitespace (what `str::trim` gives).
pub open spec fn spec_trim(s: Seq<char>) -> Seq<char> {
    spec_trim_end(spec_trim_start(s))
}

proof fn lemma_trim_start_bound(s: Seq<char>) -> (lo: int)
    ensures
        0 <= lo <= s.len(),
        spec_trim_start(s) == s.skip(lo),
        forall|k: int| 0 <= k < lo ==> is_unicode_whitespace(#[trigger] s[k]),
        lo < s.len() ==> !is_unicode_whitespace(s[lo]),
    decreases s.len(),
{
    if s.len() > 0 && is_unicode_whitespace(s[0]) {
        let l = lemma_trim_start_bound(s.drop_first());
        assert(s.drop_first().skip(l) =~= s.skip(l + 1));
        assert forall|k: int| 0 <= k < l + 1 implies is_unicode_whitespace(#[trigger] s[k]) by {
            if k > 0 {
                assert(s[k] == s.drop_first()[k - 1]);
            }
        }
        l + 1
    } else {
        assert(s.skip(0) =~= s);
        0
    }
}

proof fn lemma_trim_end_bound(s: Seq<char>) -> (hi: int)
    ensures
        0 <= hi <= s.len(),
        spec_trim_end(s) == s.take(hi),
        forall|k: int| hi <= k < s.len() ==> is_unicode_whitespace(#[trigger] s[k]),
        hi > 0 ==> !is_unicode_whitespace(s[hi - 1]),
    decreases s.len(),
{
    if s.len() > 0 && is_unicode_whitespace(s.last()) {
        let h = lemma_trim_end_bound(s.drop_last());
        assert(s.drop_last().take(h) =~= s.take(h));
        assert forall|k: int| h <= k < s.len() implies is_unicode_whitespace(#[trigger] s[k]) by {
            if k < s.len() - 1 {
                assert(s[k] == s.drop_last()[k]);
            }
        }
        h
    } else {
        assert(s.take(s.len() as int) =~= s);
        s.len() as int
    }
}

/// Law: trimming removes whitespace from the two ends and nothing else: the
/// result is the part `s[lo..hi]` of `s`, everything before `lo` and from
/// `hi` on is whitespace, and the result neither starts nor ends with
/// whitespace.
pub proof fn lemma_trim_bounds(s: Seq<char>) -> (r: (int, int))
    ensures
        0 <= r.0 <= r.1 <= s.len(),
        spec_trim(s) == s.subrange(r.0, r.1),
        forall|k: int| 0 <= k < r.0 ==> is_unicode_whitespace(#[trigger] s[k]),
        forall|k: int| r.1 <= k < s.len() ==> is_unicode_whitespace(#[trigger] s[k]),
        r.0 < r.1 ==> !is_unicode_whitespace(s[r.0]) && !is_unicode_whitespace(s[r.1 - 1]),
{
    let lo = lemma_trim_start_bound(s);
    let t = s.skip(lo);
    let h = lemma_trim_end_bound(t);
    assert(t.take(h) =~= s.subrange(lo, lo + h));
    assert forall|k: int| lo + h <= k < s.len() implies is_unicode_whitespace(#[trigger] s[k]) by {
        assert(s[k] == t[k - lo]);
    }
    if h > 0 {
        assert(s[lo + h - 1] == t[h - 1]);
    }
    (lo, lo + h)
}

/// A sequence that neither starts nor ends with whitespace is its own trim.
pub proof fn lemma_trim_no_whitespace(s: Seq<char>)
    requires
        forall|i: int| 0 <= i < s.len() ==> !is_unicode_whitespace(#[trigger] s[i]),
    ensures
        spec_trim(s) == s,
{
}

/// Removes leading and trailing Unicode whitespace.
pub fn trim_whitespace(s: &str) -> (r: &str)
    ensures
        r@ == spec_trim(s@),
{
    let n = s.unicode_len();
    let mut lo: usize = 0;
    assert(s@.skip(0) =~= s@);
    while lo < n && is_whitespace(s.get_char(lo))
        invariant
            lo <= n,
            n == s@.len(),
            spec_trim_start(s@) == spec_trim_start(s@.skip(lo as int)),
        decreases n - lo,
    {
        assert(s@.skip(lo as int).drop_first() =~= s@.skip(lo + 1));
        lo = lo + 1;
    }
    assert(spec_trim_start(s@) == s@.subrange(lo as int, n as int)) by {
        assert(s@.skip(lo as int) =~= s@.subrange(lo as int, n as int));
    }
    let mut hi: usize = n;
    while hi > lo && is_whitespace(s.get_char(hi - 1))
        invariant
            lo <= hi <= n,
            n == s@.len(),
            spec_trim(s@) == spec_trim_end(s@.subrange(lo as int, hi as int)),
        decreases hi,
    {
        assert(s@.subrange(lo as int, hi as int).drop_last() =~= s@.subrange(
            lo as int,
            hi - 1,
        ));
        hi = hi - 1;
    }
    s.substring_char(lo, hi)
}

/// The character of a decimal digit.
pub open spec fn decimal_char(d: nat) -> char {
    (48 + d) as char
}

/// Decimal rendering of `n`, as `{}` prints it.
pub open spec fn spec_decimal(n: nat) -> Seq<char>
    decreases n,
{
    if n < 10 {
        seq![decimal_char(n)]
    } else {
        spec_decimal(n / 10).push(decimal_char(n % 10))
    }
}

/// The character of a hexadecimal digit, upper case.
pub open spec fn hex_char(d: nat) -> char {
    if d < 10 {
        (48 + d) as char
    } else {
        (55 + d) as char
    }
}

/// The `width` lowest hexadecimal digits of `n`, upper case (as `{:0width$X}`
/// prints a value that fits in `width` digits).
pub open spec fn spec_hex(n: nat, width: nat) -> Seq<char>
    decreases width,
{
    if width == 0 {
        seq![]
    } else {
        spec_hex(n / 16, (width - 1) as nat).push(hex_char(n % 16))
    }
}

fn digit_str(d: u64) -> (r: &'static str)
    requires
        d < 16,
    ensures
        r@ == seq![hex_char(d as nat)],
{
    let digits = "0123456789ABCDEF";
    proof {
        reveal_strlit("0123456789ABCDEF");
    }
    let r = digits.substring_ascii(d as usize, (d + 1) as usize);
    assert(r@ =~= seq![hex_char(d as nat)]);
    r
}

/// Appends the decimal rendering of `n`.
pub fn push_decimal(out: &mut String, n: u64)
    ensures
        final(out)@ == old(out)@ + spec_decimal(n as nat),
    decreases n,
{
    if n >= 10 {
        push_decimal(out, n / 10);
    }
    out.append(digit_str(n % 10));
    assert(final(out)@ =~= old(out)@ + spec_decimal(n as nat));
}

/// Appends the `width` lowest hexadecimal digits of `n`.
pub fn push_hex(out: &mut String, n: u64, width: u64)
    ensures
        final(out)@ == old(out)@ + spec_hex(n as nat, width as nat),
    decreases width,
{
    if width > 0 {
        push_hex(out, n / 16, width - 1);
        out.append(digit_str(n % 16));
        assert(final(out)@ =~= old(out)@ + spec_hex(n as nat, width as nat));
    } else {
        assert(final(out)@ =~= old(out)@ + spec_hex(n as nat, width as nat));
    }
}

} // verus!
