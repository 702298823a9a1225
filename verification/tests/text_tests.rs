use tetris::text::{
    chars_of, decimal_text, digit, digits_of, is_ascii_digit, is_whitespace, parse_digits, parse_i32,
    parse_u64, same_text, starts_with, word_spans,
};

fn words_of(s: &str) -> Vec<String> {
    let chars = chars_of(s);
    word_spans(&chars, 0, chars.len())
        .iter()
        .map(|&(a, b)| chars[a..b].iter().collect())
        .collect()
}

#[test]
fn digits_are_the_ten_digit_characters() {
    let all: String = (0..10u8).map(digit).collect();
    assert_eq!(all, "0123456789");
}

#[test]
fn decimal_text_agrees_with_to_string() {
    let samples: [i32; 17] = [
        0, 1, 9, 10, 11, 99, 100, 101, 12345, 1000000, 2147483647, -1, -9, -10, -99, -12345,
        -2147483648,
    ];
    for n in samples {
        let text: String = decimal_text(n).into_iter().collect();
        assert_eq!(text, n.to_string());
    }
    for n in -2000..2000 {
        let text: String = decimal_text(n).into_iter().collect();
        assert_eq!(text, n.to_string());
    }
}

#[test]
fn digits_of_writes_no_leading_zero() {
    let text: String = digits_of(4294967295).into_iter().collect();
    assert_eq!(text, "4294967295");
    let zero: String = digits_of(0).into_iter().collect();
    assert_eq!(zero, "0");
    let seven: String = digits_of(700).into_iter().collect();
    assert_eq!(seven, "700");
}

#[test]
fn white_space_is_what_the_standard_library_calls_so() {
    for n in 0..=0x10FFFFu32 {
        if let Some(c) = char::from_u32(n) {
            assert_eq!(is_whitespace(c), c.is_whitespace(), "U+{:04X}", n);
        }
    }
}

#[test]
fn digits_are_what_the_standard_library_calls_so() {
    for n in 0..=0x10FFFFu32 {
        if let Some(c) = char::from_u32(n) {
            assert_eq!(is_ascii_digit(c), c.is_ascii_digit(), "U+{:04X}", n);
        }
    }
}

#[test]
fn chars_of_gives_the_characters() {
    assert_eq!(chars_of("a\u{e9}\u{4e2d}"), vec!['a', '\u{e9}', '\u{4e2d}']);
    assert_eq!(chars_of(""), Vec::<char>::new());
}

#[test]
fn same_text_compares_character_by_character() {
    assert!(same_text("blind", "blind"));
    assert!(same_text("", ""));
    assert!(!same_text("blind", "blin"));
    assert!(!same_text("blind", "blinD"));
    assert!(!same_text("", "x"));
}

#[test]
fn starts_with_agrees_with_the_standard_library() {
    let names = ["left", "levelup", "leveldown", "", "l", "le", "lex", "right"];
    for name in names {
        for stem in names {
            assert_eq!(starts_with(name, stem), name.starts_with(stem), "{} {}", name, stem);
        }
    }
}

#[test]
fn words_are_split_at_white_space() {
    let samples = [
        "",
        " ",
        "a",
        " a ",
        "I J  L\tS\nT\r\nO Z",
        "  leading and trailing  ",
        "uni\u{3000}code\u{a0}space\u{2028}s\u{85}x",
        "one",
        "\n\n\n",
        "a\u{200b}b c",
    ];
    for s in samples {
        let expect: Vec<String> = s.split_whitespace().map(|w| w.to_string()).collect();
        assert_eq!(words_of(s), expect, "{:?}", s);
    }
}

#[test]
fn word_spans_of_a_part_stay_in_the_part() {
    let chars = chars_of("ab cd ef");
    assert_eq!(word_spans(&chars, 1, 7), vec![(1, 2), (3, 5), (6, 7)]);
    assert_eq!(word_spans(&chars, 2, 2), Vec::<(usize, usize)>::new());
    assert_eq!(word_spans(&chars, 0, 8), vec![(0, 2), (3, 5), (6, 8)]);
}

#[test]
fn parse_digits_reads_a_run_up_to_the_limit() {
    let chars = chars_of("x0123y");
    assert_eq!(parse_digits(&chars, 1, 5, 1000), Some(123));
    assert_eq!(parse_digits(&chars, 1, 5, 123), Some(123));
    assert_eq!(parse_digits(&chars, 1, 5, 122), None);
    assert_eq!(parse_digits(&chars, 0, 5, 1000), None);
    assert_eq!(parse_digits(&chars, 1, 6, 1000), None);
    assert_eq!(parse_digits(&chars, 2, 2, 1000), None);
    assert_eq!(parse_digits(&chars, 1, 2, 0), Some(0));
}

#[test]
fn parse_u64_agrees_with_the_standard_library() {
    let samples = [
        "", "0", "7", "+7", "-7", "-0", "+", "-", "++1", "+-1", "007", "18446744073709551615",
        "18446744073709551616", "99999999999999999999999", " 1", "1 ", "1_000", "12a", "a12",
        "\u{664}", "+0", "1e3", "0x10",
    ];
    for s in samples {
        assert_eq!(parse_u64(s), s.parse::<u64>().ok(), "{:?}", s);
    }
}

#[test]
fn parse_i32_agrees_with_the_standard_library() {
    let samples = [
        "", "0", "7", "+7", "-7", "-0", "+", "-", "--1", "+-1", "-+1", "007", "-007", "2147483647",
        "2147483648", "-2147483648", "-2147483649", "+2147483647", "99999999999", " 1", "1 ",
        "12a", "a12", "4", "-1", "1.0",
    ];
    for s in samples {
        assert_eq!(parse_i32(s), s.parse::<i32>().ok(), "{:?}", s);
    }
}
