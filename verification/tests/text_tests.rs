use ledger_sol_core::text::{is_whitespace, push_decimal, push_hex, trim_whitespace};

#[test]
fn whitespace_matches_std() {
    for c in ['\t', '\n', '\u{b}', '\u{c}', '\r', ' ', '\u{85}', '\u{a0}', '\u{1680}', '\u{2000}',
        '\u{200a}', '\u{2028}', '\u{2029}', '\u{202f}', '\u{205f}', '\u{3000}', 'a', '0', '\u{200b}',
        '\u{feff}', '\u{180e}']
    {
        assert_eq!(is_whitespace(c), c.is_whitespace(), "{:?}", c);
    }
}

#[test]
fn trim_matches_std() {
    for s in ["", "  ", " a b ", "\u{3000}x\u{a0}", "x", "\u{200b}x\u{200b}", "\tm/44'\n"] {
        assert_eq!(trim_whitespace(s), s.trim());
    }
}

#[test]
fn decimal_and_hex_rendering() {
    let mut s = String::from("n=");
    push_decimal(&mut s, 0);
    push_decimal(&mut s, 1234567890);
    assert_eq!(s, "n=01234567890");
    let mut h = String::new();
    push_hex(&mut h, 0x6a80, 4);
    push_hex(&mut h, 0x7, 2);
    push_hex(&mut h, 0xab, 0);
    assert_eq!(h, "6A8007");
}
