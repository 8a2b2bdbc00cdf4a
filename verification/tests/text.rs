use fosipcore::text::{
    chars_of, decimal_string, find_text, hex_string, is_whitespace, next_word, parse_u16,
    parse_u32, parse_u64, same_str, string_of, to_ascii_lowercase, trim, trim_char,
};

fn trimmed(s: &str) -> String {
    string_of(trim(&chars_of(s)))
}

#[test]
fn whitespace_is_that_of_unicode() {
    for n in 0..0x11_0000u32 {
        if let Some(c) = char::from_u32(n) {
            assert_eq!(is_whitespace(c), c.is_whitespace(), "{n:x}");
        }
    }
}

#[test]
fn trimming() {
    for s in ["", " ", "a", " a ", "\t\r\na b\u{a0}", "\u{2003}x\u{3000}"] {
        assert_eq!(trimmed(s), s.trim());
    }
    assert_eq!(string_of(trim_char(&chars_of("\"\"a\"b\""), '"')), "a\"b");
}

#[test]
fn numbers_are_read_as_usual() {
    for s in ["", "+", "0", "+7", "007", "65535", "65536", "4294967295", "4294967296", "-1", " 1",
        "1 ", "1_0", "18446744073709551615", "18446744073709551616", "\u{661}"] {
        let cs = chars_of(s);
        assert_eq!(parse_u16(&cs), s.parse::<u16>().ok(), "{s}");
        assert_eq!(parse_u32(&cs), s.parse::<u32>().ok(), "{s}");
        assert_eq!(parse_u64(&cs, u64::MAX), s.parse::<u64>().ok(), "{s}");
        assert_eq!(parse_u64(&cs, 255), s.parse::<u8>().ok().map(u64::from), "{s}");
    }
}

#[test]
fn numbers_are_written_as_usual() {
    for n in [0u64, 7, 10, 99, 100, 65535, u64::MAX] {
        assert_eq!(decimal_string(n), n.to_string());
        assert_eq!(hex_string(n as u128, 16), format!("{n:016x}"));
        assert_eq!(parse_u64(&chars_of(&decimal_string(n)), u64::MAX), Some(n));
    }
    assert_eq!(hex_string(u128::MAX, 3), format!("{:x}", u128::MAX));
}

#[test]
fn searching() {
    for (hay, needle) in [("", ""), ("", "a"), ("abab", "ab"), ("abab", "ba"), ("abab", "bb"),
        ("aab", "ab"), ("x", "xyz")] {
        let found = find_text(&chars_of(hay), &chars_of(needle), 0);
        assert_eq!(found, hay.find(needle), "{hay} {needle}");
    }
    assert_eq!(find_text(&chars_of("abab"), &chars_of("ab"), 1), Some(2));
    assert_eq!(find_text(&chars_of("ab"), &chars_of(""), 2), Some(2));
    assert!(same_str("\u{e9}", "\u{e9}") && !same_str("a", "b") && !same_str("a", "ab"));
}

#[test]
fn words_and_letters() {
    let cs = chars_of(" a  bc ");
    assert_eq!(next_word(&cs, 0, cs.len()), (1, 2));
    assert_eq!(next_word(&cs, 2, cs.len()), (4, 6));
    assert_eq!(next_word(&cs, 6, cs.len()), (7, 7));
    assert_eq!(string_of(&to_ascii_lowercase(&chars_of("AZ[az\u{c4}"))), "az[az\u{c4}");
}
