use pico_io_finder::text::{
    chars_of, is_white_space_char, lower_starts_with, push_decimal, str_equal, str_less, trimmed,
};

#[test]
fn white_space_agrees_with_std() {
    for code in 0u32..=0x10FFFF {
        if let Some(c) = char::from_u32(code) {
            assert_eq!(is_white_space_char(c), c.is_whitespace(), "U+{code:04X}");
        }
    }
}

#[test]
fn trim_agrees_with_std() {
    for text in ["", "  ", "\u{85}a b\u{2028}", "\u{3000}\tx\n", "x", " \u{200b}x "] {
        let expected: Vec<char> = text.trim().chars().collect();
        assert_eq!(trimmed(&chars_of(text)), expected, "{text:?}");
    }
}

#[test]
fn ascii_folded_prefix() {
    let prefix: Vec<char> = "pico-io".chars().collect();
    assert!(lower_starts_with(&chars_of("PICO-IO-1"), &prefix));
    assert!(!lower_starts_with(&chars_of("PİCO-IO"), &prefix));
    assert!(!lower_starts_with(&chars_of("pico"), &prefix));
}

#[test]
fn order_and_equality_agree_with_std() {
    let samples = ["", "a", "A", "ab", "abc", "b", "é", "e\u{301}", "Z", "zz", "\u{10000}", "\u{ffff}"];
    for a in samples {
        for b in samples {
            assert_eq!(str_less(a, b), a < b, "{a:?} < {b:?}");
            assert_eq!(str_equal(a, b), a == b, "{a:?} == {b:?}");
        }
    }
}

#[test]
fn decimal_agrees_with_std() {
    for n in [0u64, 7, 10, 99, 100, 65535, 1_000_000_007, u64::MAX] {
        let mut s = String::from("n=");
        push_decimal(&mut s, n);
        assert_eq!(s, format!("n={n}"));
    }
}
