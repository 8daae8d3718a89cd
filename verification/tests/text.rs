use clipq::text::{
    blank, chars_of, clone_strings, contains, parse_usize, push_decimal, push_signed_decimal,
    space, trimmed,
};

const SAMPLES: [&str; 14] = [
    "",
    " ",
    "a",
    " a ",
    "\t\n\r",
    "\u{0b}\u{0c}",
    "\u{85}\u{a0}",
    "\u{1680}\u{2000}\u{200a}\u{2028}\u{2029}\u{202f}\u{205f}\u{3000}",
    "\u{200b}",
    "\u{feff}",
    " \u{3000}x\u{3000} ",
    "two words",
    "\u{1c}\u{1f}",
    "\u{180e}",
];

#[test]
fn white_space_is_what_unicode_says() {
    for code in 0u32..0x3100 {
        if let Some(c) = char::from_u32(code) {
            assert_eq!(space(c), c.is_whitespace());
        }
    }
    assert!(!space('\u{10ffff}'));
}

#[test]
fn blank_is_empty_after_trimming() {
    for s in SAMPLES {
        assert_eq!(blank(s), s.trim().is_empty());
    }
}

#[test]
fn trimmed_drops_the_space_at_both_ends() {
    for s in SAMPLES {
        assert_eq!(trimmed(s), s.trim());
    }
    assert_eq!(trimmed("  a b  "), "a b");
    assert_eq!(trimmed("\n"), "");
}

#[test]
fn contains_finds_substrings() {
    let cases = [
        ("hello", "ell"),
        ("hello", ""),
        ("", ""),
        ("", "a"),
        ("hello", "hello"),
        ("hello", "hello!"),
        ("hello", "o"),
        ("hello", "h"),
        ("hello", "lo"),
        ("hello", "Hell"),
        ("aaab", "aab"),
        ("ababac", "abac"),
        ("日本語", "本"),
        ("日本語", "本語日"),
    ];
    for (hay, needle) in cases {
        assert_eq!(contains(hay, needle), hay.contains(needle));
    }
}

#[test]
fn a_text_is_taken_apart_into_its_characters() {
    assert_eq!(chars_of("héllo"), vec!['h', 'é', 'l', 'l', 'o']);
    assert_eq!(chars_of(""), Vec::<char>::new());
    let v = vec!["a".to_string(), "b".to_string()];
    assert_eq!(clone_strings(&v), v);
}

#[test]
fn numbers_are_written_in_decimal() {
    for n in [0u64, 1, 9, 10, 11, 99, 100, 12345, u64::MAX] {
        let mut out = String::from(">");
        push_decimal(&mut out, n);
        assert_eq!(out, format!(">{}", n));
    }
    for n in [0i64, 1, -1, 10, -10, 1700000000, i64::MAX, i64::MIN, i64::MIN + 1] {
        let mut out = String::new();
        push_signed_decimal(&mut out, n);
        assert_eq!(out, n.to_string());
    }
}

#[test]
fn numbers_are_read_from_decimal() {
    let cases = [
        "0", "1", "42", "007", "+5", "+", "", "-1", " 1", "1 ", "1a", "a", "++1", "1+",
        "18446744073709551615", "18446744073709551616", "99999999999999999999999", "٣",
    ];
    for s in cases {
        assert_eq!(parse_usize(s), s.parse::<usize>().ok());
    }
    assert_eq!(parse_usize("42"), Some(42));
    assert_eq!(parse_usize("+0"), Some(0));
}
