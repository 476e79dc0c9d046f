use report_host::text::{
    char_is_whitespace, chars_end_with, chars_of, chars_precede, decimal_string, find_char,
    parse_u32, parse_u64, str_eq, string_of, trim_bounds,
};

#[test]
fn whitespace_is_the_unicode_white_space_property() {
    for code in 0u32..0x11_0000 {
        if let Some(c) = char::from_u32(code) {
            assert_eq!(char_is_whitespace(c), c.is_whitespace(), "{:?}", c);
        }
    }
}

#[test]
fn trim_bounds_agree_with_trim() {
    for s in ["", " ", "a", " a", "a ", "  a b  ", "\t\n x \r\n", "\u{2000}é\u{3000}", "   \u{85}"] {
        let chars = chars_of(s);
        let (from, to) = trim_bounds(&chars);
        assert_eq!(string_of(&chars, from, to), s.trim(), "{:?}", s);
    }
}

#[test]
fn numbers_are_read_as_the_standard_parser_reads_them() {
    let samples = [
        "", "0", "1", "007", "+5", "+", "-", "-1", "-0", "4294967295", "4294967296", "42949672950",
        "18446744073709551615", "18446744073709551616", "99999999999999999999999", " 1", "1 ",
        "1_0", "0x10", "１２", "12a", "++1", "+-1", "1+", "000000000000000000000000000001",
    ];
    for s in samples {
        assert_eq!(parse_u32(s), s.parse::<u32>().ok(), "{:?}", s);
        assert_eq!(parse_u64(s), s.parse::<u64>().ok(), "{:?}", s);
    }
}

#[test]
fn decimal_writing_is_the_standard_one_and_reads_back() {
    for n in [0u64, 1, 9, 10, 11, 99, 100, 101, 4294967295, 4294967296, u64::MAX] {
        assert_eq!(decimal_string(n), n.to_string());
        assert_eq!(parse_u64(&decimal_string(n)), Some(n));
    }
    assert_eq!(decimal_string(1204), "1204");
}

#[test]
fn lexicographic_order_is_the_order_of_strings() {
    let samples = ["", "a", "b", "ab", "aa", "B", "é", "e", "z", "~", "𝄞", "\u{ffff}", "a\0"];
    for a in samples {
        for b in samples {
            assert_eq!(chars_precede(&chars_of(a), &chars_of(b)), a < b, "{:?} {:?}", a, b);
            assert_eq!(str_eq(a, b), a == b);
        }
    }
}

#[test]
fn searching_characters_and_suffixes() {
    assert_eq!(find_char(&chars_of("a,b,c"), ','), 1);
    assert_eq!(find_char(&chars_of("abc"), ','), 3);
    assert_eq!(find_char(&chars_of(""), ','), 0);
    assert_eq!(find_char(&chars_of(",x"), ','), 0);
    assert!(chars_end_with(&chars_of("a.zip"), ".zip"));
    assert!(chars_end_with(&chars_of(".zip"), ".zip"));
    assert!(!chars_end_with(&chars_of("zip"), ".zip"));
    assert!(!chars_end_with(&chars_of("a.zipx"), ".zip"));
    assert!(chars_end_with(&chars_of("anything"), ""));
}
