use cod4_patcher::text::{
    chars_of, ends_with, find_char, parse_number, remove_white_space, same_ignoring_case,
    split_lines, split_pieces, split_words, text_of, to_decimal, to_hex, trim, trim_trailing,
    white_space, NumberError,
};

fn texts(v: Vec<Vec<char>>) -> Vec<String> {
    v.iter().map(|c| text_of(c)).collect()
}

#[test]
fn white_space_is_that_of_unicode() {
    for u in 0..0x11_0000u32 {
        if let Some(c) = char::from_u32(u) {
            assert_eq!(white_space(c), c.is_whitespace(), "{u:x}");
        }
    }
}

#[test]
fn text_is_split() {
    assert_eq!(texts(split_pieces(&chars_of("a//b/"), '/')), ["a", "", "b", ""]);
    assert_eq!(texts(split_pieces(&[], '/')), [""]);
    for s in ["", "a\r\nb\r\n\r\n", "\r\r\n\n", "a\nb\rc", "\r\n\r", "\r\n\n"] {
        let wanted: Vec<&str> = s.split("\r\n").collect();
        assert_eq!(texts(split_lines(&chars_of(s))), wanted, "{s:?}");
    }
    for s in ["", "  ", " a bc\t\u{3000}d\n", "x"] {
        let wanted: Vec<&str> = s.split_whitespace().collect();
        assert_eq!(texts(split_words(&chars_of(s))), wanted, "{s:?}");
    }
}

#[test]
fn text_is_trimmed() {
    for s in ["", " ", " a b ", "\u{a0}x\r", "y"] {
        assert_eq!(text_of(trim(&chars_of(s))), s.trim());
    }
    assert_eq!(text_of(trim_trailing(&chars_of("a//b//"), '/')), "a//b");
    assert_eq!(text_of(trim_trailing(&chars_of("///"), '/')), "");
    assert_eq!(text_of(&remove_white_space(&chars_of(" a\n b\u{85}"))), "ab");
}

#[test]
fn text_is_searched() {
    assert_eq!(find_char(&chars_of("a:b:"), ':'), 1);
    assert_eq!(find_char(&chars_of("ab"), ':'), 2);
    assert!(ends_with(&chars_of("/x/GAME.VER"), "GAME.VER"));
    assert!(!ends_with(&chars_of("AME.VER"), "GAME.VER"));
    assert!(same_ignoring_case(&chars_of("Content-LENGTH"), &chars_of("content-length")));
    assert!(!same_ignoring_case(&chars_of("\u{c9}"), &chars_of("\u{e9}")));
    assert!(!same_ignoring_case(&chars_of("[a"), &chars_of("{a")));
}

#[test]
fn numbers_are_read_as_std_reads_them() {
    for s in [
        "", "+", "-", "0", "007", "+5", "-5", "--5", "++5", "5+", " 5", "65535", "65536", "65537x",
        "x65537", "99999x",
    ] {
        let wanted: Option<u64> = s.parse::<u16>().ok().map(u64::from);
        assert_eq!(parse_number(&chars_of(s), 65535).ok(), wanted, "{s}");
        if let (Err(a), Err(b)) = (parse_number(&chars_of(s), 65535), s.parse::<u16>()) {
            assert_eq!(a.message(), b.to_string(), "{s}");
        }
    }
    assert_eq!(parse_number(&[], 9), Err(NumberError::Empty));
    assert_eq!(parse_number(&['a'], 9), Err(NumberError::InvalidDigit));
    assert_eq!(parse_number(&['1', '0'], 9), Err(NumberError::TooLarge));
}

#[test]
fn numbers_read_back() {
    for n in [0u64, 9, 10, 4096, u64::MAX] {
        let text = to_decimal(n as u128);
        assert_eq!(text, n.to_string());
        assert_eq!(parse_number(&chars_of(&text), u64::MAX), Ok(n));
    }
}

#[test]
fn bytes_are_written_in_hexadecimal() {
    assert_eq!(to_hex(&[0, 9, 10, 15, 16, 171, 255]), "00090a0f10abff");
    assert_eq!(to_hex(&[]), "");
}
