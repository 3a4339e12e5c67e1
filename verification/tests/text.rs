use hello_cargo::text::{append_decimal, find_char, is_whitespace, parse_i32, trim};

#[test]
fn decimal_notation_is_appended() {
    let mut text = String::from("n=");
    append_decimal(&mut text, 0);
    assert_eq!(text, "n=0");
    append_decimal(&mut text, 7);
    append_decimal(&mut text, 10);
    append_decimal(&mut text, 4294967295);
    assert_eq!(text, "n=07104294967295");
    let mut big = String::new();
    append_decimal(&mut big, u64::MAX);
    assert_eq!(big, "18446744073709551615");
}

#[test]
fn decimal_notation_matches_the_standard_formatting() {
    for n in [0u64, 1, 9, 10, 11, 99, 100, 101, 12345, 1_000_000, u64::from(u32::MAX)] {
        let mut text = String::new();
        append_decimal(&mut text, n);
        assert_eq!(text, n.to_string());
    }
}

#[test]
fn find_char_gives_the_first_position_in_characters() {
    assert_eq!(find_char("hello world", ' '), Some(5));
    assert_eq!(find_char("hello", ' '), None);
    assert_eq!(find_char("", ' '), None);
    assert_eq!(find_char(" x ", ' '), Some(0));
    assert_eq!(find_char("héé b c", ' '), Some(3));
    assert_eq!(find_char("a@b@c", '@'), Some(1));
}

#[test]
fn white_space_is_what_the_standard_library_calls_so() {
    for code in 0u32..=0x10FFFF {
        if let Some(c) = char::from_u32(code) {
            assert_eq!(is_whitespace(c), c.is_whitespace(), "U+{:04X}", code);
        }
    }
}

#[test]
fn trim_drops_white_space_at_both_ends_only() {
    assert_eq!(trim("  hello world \n"), "hello world");
    assert_eq!(trim("hello"), "hello");
    assert_eq!(trim(""), "");
    assert_eq!(trim(" \t\r\n"), "");
    assert_eq!(trim("\u{3000}é \u{a0}x\u{2003}"), "é \u{a0}x");
    assert_eq!(trim("a"), "a");
    assert_eq!(trim(" a"), "a");
    assert_eq!(trim("a "), "a");
}

#[test]
fn trim_matches_the_standard_library() {
    for text in ["", " ", "x", " x", "x ", "  a b  ", "\n\ta\u{85}", "\u{1680}\u{2028}", "ü ", " 12 "] {
        assert_eq!(trim(text), text.trim());
    }
}

#[test]
fn parse_reads_signed_decimal_integers() {
    assert_eq!(parse_i32("0"), Some(0));
    assert_eq!(parse_i32("42"), Some(42));
    assert_eq!(parse_i32("+42"), Some(42));
    assert_eq!(parse_i32("-42"), Some(-42));
    assert_eq!(parse_i32("-0"), Some(0));
    assert_eq!(parse_i32("007"), Some(7));
    assert_eq!(parse_i32("2147483647"), Some(i32::MAX));
    assert_eq!(parse_i32("-2147483648"), Some(i32::MIN));
    assert_eq!(parse_i32("00000000000000000000012"), Some(12));
}

#[test]
fn parse_rejects_everything_else() {
    assert_eq!(parse_i32(""), None);
    assert_eq!(parse_i32("+"), None);
    assert_eq!(parse_i32("-"), None);
    assert_eq!(parse_i32("--1"), None);
    assert_eq!(parse_i32("+-1"), None);
    assert_eq!(parse_i32("1-"), None);
    assert_eq!(parse_i32(" 1"), None);
    assert_eq!(parse_i32("1 "), None);
    assert_eq!(parse_i32("1.0"), None);
    assert_eq!(parse_i32("12a"), None);
    assert_eq!(parse_i32("a12"), None);
    assert_eq!(parse_i32("١٢"), None);
    assert_eq!(parse_i32("2147483648"), None);
    assert_eq!(parse_i32("-2147483649"), None);
    assert_eq!(parse_i32("99999999999999999999999999"), None);
    assert_eq!(parse_i32("-99999999999999999999999999"), None);
    assert_eq!(parse_i32("99999999999x"), None);
}

#[test]
fn parse_matches_the_standard_library() {
    for text in [
        "", "+", "-", "0", "-0", "+0", "12", "-12", "+12", "2147483647", "2147483648",
        "-2147483648", "-2147483649", "1_000", "0x10", " 5", "5 ", "٣", "21474836470", "００",
    ] {
        assert_eq!(parse_i32(text), text.parse::<i32>().ok(), "{:?}", text);
    }
}
