use network_check::text::{
    is_digit_char, is_space_char, parse_number, push_decimal, push_difference, scan,
    split_at_char, stripped_end, stripped_start, to_chars, trimmed, Class, MAX_VALUE,
};

fn chars(text: &str) -> Vec<char> {
    text.chars().collect()
}

fn string(chars: &[char]) -> String {
    chars.iter().collect()
}

#[test]
fn white_space_is_what_the_standard_library_says() {
    for code in 0..=0x10ffffu32 {
        if let Some(c) = char::from_u32(code) {
            assert_eq!(is_space_char(c), c.is_whitespace(), "{:x}", code);
        }
    }
}

#[test]
fn digits_are_the_ascii_digits() {
    for code in 0..=0x10ffffu32 {
        if let Some(c) = char::from_u32(code) {
            assert_eq!(is_digit_char(c), c.is_ascii_digit(), "{:x}", code);
        }
    }
}

#[test]
fn classes() {
    assert!(Class::Digit.test('7'));
    assert!(!Class::Digit.test('a'));
    assert!(Class::Space.test('\n'));
    assert!(!Class::Space.test('_'));
    assert!(Class::Only('|').test('|'));
    assert!(!Class::Only('|').test('!'));
    assert!(Class::Until(',').test('|'));
    assert!(!Class::Until(',').test(','));
}

#[test]
fn chars_of_a_string() {
    assert_eq!(to_chars(""), Vec::<char>::new());
    assert_eq!(to_chars("x#1 \u{e9}\u{1f600}"), chars("x#1 \u{e9}\u{1f600}"));
}

#[test]
fn scanning_runs() {
    let text = chars("123  abc,d");
    assert_eq!(scan(&text, 0, Class::Digit), 3);
    assert_eq!(scan(&text, 1, Class::Digit), 3);
    assert_eq!(scan(&text, 3, Class::Digit), 3);
    assert_eq!(scan(&text, 3, Class::Space), 5);
    assert_eq!(scan(&text, 0, Class::Until(',')), 8);
    assert_eq!(scan(&text, 9, Class::Until(',')), 10);
    assert_eq!(scan(&text, 10, Class::Digit), 10);
    assert_eq!(scan(&text, 8, Class::Only(',')), 9);
}

#[test]
fn trimming_is_what_the_standard_library_does() {
    for text in [
        "",
        " ",
        "\t\r\n",
        "a",
        " a",
        "a ",
        "  a b  ",
        "\u{a0}x#1#2 1\u{3000}\r",
        "\u{2003}\u{2003}",
        "|1  | 0, 24|",
    ] {
        assert_eq!(string(trimmed(&chars(text))), text.trim(), "{:?}", text);
        assert_eq!(
            string(stripped_start(&chars(text), Class::Space)),
            text.trim_start(),
            "{:?}",
            text
        );
        assert_eq!(
            string(stripped_end(&chars(text), Class::Space)),
            text.trim_end(),
            "{:?}",
            text
        );
    }
    assert_eq!(string(stripped_end(&chars("1,2|||"), Class::Only('|'))), "1,2");
    assert_eq!(string(stripped_end(&chars("1,2| |"), Class::Only('|'))), "1,2| ");
    assert_eq!(string(stripped_end(&chars("|||"), Class::Only('|'))), "");
}

#[test]
fn splitting_is_what_the_standard_library_does() {
    for text in ["", ",", "a", "a,b", ",a,,b,", "1, 2, 3", ",,,", "a\nb"] {
        let cs = chars(text);
        let pieces: Vec<String> = split_at_char(&cs, ',').iter().map(|p| string(p)).collect();
        let expected: Vec<String> = text.split(',').map(String::from).collect();
        assert_eq!(pieces, expected, "{:?}", text);
    }
    let cs = chars("one\ntwo\r\n\nlast");
    let lines: Vec<String> = split_at_char(&cs, '\n').iter().map(|p| string(p)).collect();
    assert_eq!(lines, vec!["one", "two\r", "", "last"]);
}

#[test]
fn numbers_are_read_up_to_the_bound() {
    assert_eq!(MAX_VALUE, i32::MAX as u64);
    assert_eq!(parse_number(&chars("0"), 10), Some(0));
    assert_eq!(parse_number(&chars("7"), 10), Some(7));
    assert_eq!(parse_number(&chars("10"), 10), Some(10));
    assert_eq!(parse_number(&chars("11"), 10), None);
    assert_eq!(parse_number(&chars("0000000000000000000000000000010"), 10), Some(10));
    assert_eq!(parse_number(&chars("100"), 10), None);
    assert_eq!(parse_number(&chars("0"), 0), Some(0));
    assert_eq!(parse_number(&chars("1"), 0), None);
    assert_eq!(parse_number(&chars(""), 10), None);
    assert_eq!(parse_number(&chars("+1"), 10), None);
    assert_eq!(parse_number(&chars("-1"), 10), None);
    assert_eq!(parse_number(&chars("1 "), 10), None);
    assert_eq!(parse_number(&chars("1a"), 10), None);
    assert_eq!(parse_number(&chars("\u{661}"), 10), None);
    assert_eq!(parse_number(&chars("2147483647"), MAX_VALUE), Some(2147483647));
    assert_eq!(parse_number(&chars("2147483648"), MAX_VALUE), None);
    assert_eq!(
        parse_number(&chars("18446744073709551615"), u64::MAX),
        Some(18446744073709551615)
    );
    assert_eq!(parse_number(&chars("18446744073709551616"), u64::MAX), None);
    assert_eq!(parse_number(&chars("18446744073709551620"), u64::MAX), None);
    assert_eq!(parse_number(&chars("99999999999999999999999"), u64::MAX), None);
}

#[test]
fn numbers_are_read_as_the_standard_library_reads_them() {
    for text in ["0", "5", "042", "2147483647", "2147483648", "4294967296", "", "12x", "1 2"] {
        let expected = if text.starts_with('+') { None } else { text.parse::<i32>().ok() };
        assert_eq!(
            parse_number(&chars(text), MAX_VALUE),
            expected.map(|v| v as u64),
            "{:?}",
            text
        );
    }
}

#[test]
fn numbers_are_written_in_decimal() {
    for v in [0u64, 1, 9, 10, 11, 99, 100, 1000, 3000, 4294967295, 18446744073709551615] {
        let mut out = String::from("n=");
        push_decimal(&mut out, v);
        assert_eq!(out, format!("n={}", v));
    }
}

#[test]
fn written_numbers_read_back() {
    for v in [0u64, 7, 10, 1234567890, 18446744073709551615] {
        let mut out = String::new();
        push_decimal(&mut out, v);
        assert_eq!(parse_number(&chars(&out), u64::MAX), Some(v));
    }
}

#[test]
fn differences_are_written_with_their_sign() {
    for (a, b) in [(0u64, 0u64), (5, 3), (3, 5), (0, 18446744073709551615), (18446744073709551615, 0), (7, 7)] {
        let mut out = String::from("d=");
        push_difference(&mut out, a, b);
        assert_eq!(out, format!("d={}", a as i128 - b as i128));
    }
}
