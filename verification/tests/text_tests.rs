use color_picker::text::{
    ascii_digit, ascii_hex_digit, chars_of, decimal_text, digit_str, hex_digit_value,
    parse_u8_chars, push_byte_hex, push_decimal, push_signed_decimal, trimmed_chars, white_space,
};

#[test]
fn white_space_is_unicode_white_space() {
    for u in 0..=0x10FFFFu32 {
        if let Some(c) = char::from_u32(u) {
            assert_eq!(white_space(c), c.is_whitespace(), "{:?}", c);
            assert_eq!(ascii_digit(c), c.is_ascii_digit(), "{:?}", c);
            assert_eq!(ascii_hex_digit(c), c.is_ascii_hexdigit(), "{:?}", c);
        }
    }
}

#[test]
fn digits() {
    let all: String = (0..16u8).map(digit_str).collect();
    assert_eq!(all, "0123456789ABCDEF");
    for (i, c) in "0123456789abcdefABCDEF".chars().enumerate() {
        let expected = if i < 16 { i as u8 } else { (i - 6) as u8 };
        assert_eq!(hex_digit_value(c), expected);
    }
}

#[test]
fn trimming_matches_str_trim() {
    for s in ["", "  ", "a", " a ", "\t a b \n", "\u{2003}x\u{3000}", "\u{85}y\u{a0}", "x\u{180e}"] {
        let trimmed: String = trimmed_chars(s).into_iter().collect();
        assert_eq!(trimmed, s.trim());
        let all: String = chars_of(s).into_iter().collect();
        assert_eq!(all, s);
    }
}

#[test]
fn parsing_bytes_matches_str_parse() {
    for s in ["0", "255", "256", "+1", "-1", "+", "", "01", "1a", "999", "0000000000012", "+-1"] {
        let chars: Vec<char> = s.chars().collect();
        assert_eq!(parse_u8_chars(&chars), s.parse::<u8>().ok(), "{:?}", s);
    }
}

#[test]
fn writing_numbers() {
    let mut s = String::from("n=");
    push_decimal(&mut s, 1234567890);
    assert_eq!(s, "n=1234567890");
    let mut s = String::new();
    push_signed_decimal(&mut s, i32::MIN);
    assert_eq!(s, i32::MIN.to_string());
    let mut s = String::new();
    push_signed_decimal(&mut s, -7);
    push_signed_decimal(&mut s, 0);
    assert_eq!(s, "-70");
    let mut s = String::new();
    push_byte_hex(&mut s, 0x0f);
    push_byte_hex(&mut s, 0xa0);
    assert_eq!(s, "0FA0");
    assert_eq!(decimal_text(0), "0");
}
