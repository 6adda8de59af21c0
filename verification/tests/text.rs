use sysfetch::number::{parse_i64, push_decimal, push_signed_decimal, read_digits, DigitRun};
use sysfetch::text::{
    chars_of, cut, field_spans, is_whitespace, line_spans, span_contains, token_spans, trim,
    whole_span, Span,
};

fn lines_of(s: &str) -> Vec<String> {
    let v = chars_of(s);
    line_spans(&v).iter().map(|span| cut(s, *span)).collect()
}

fn tokens_of(s: &str) -> Vec<String> {
    let v = chars_of(s);
    token_spans(&v, whole_span(&v)).iter().map(|span| cut(s, *span)).collect()
}

fn fields_of(s: &str, sep: char) -> Vec<String> {
    let v = chars_of(s);
    field_spans(&v, whole_span(&v), sep).iter().map(|span| cut(s, *span)).collect()
}

fn holds(s: &str, pat: &str) -> bool {
    let v = chars_of(s);
    span_contains(&v, whole_span(&v), &chars_of(pat))
}

fn number_of(s: &str) -> Option<i64> {
    let v = chars_of(s);
    parse_i64(&v, whole_span(&v))
}

fn samples() -> Vec<&'static str> {
    vec![
        "",
        " ",
        "\n",
        "\r\n",
        "\r",
        "a",
        "a\n",
        "a\r\n",
        "a\r",
        "a\n\nb",
        "a\r\n\r\nb\r",
        "\n\n",
        "  lead and trail \t\n",
        "one two  three\tfour\nfive",
        "Linux version 6.1.0-13-amd64 (debian-kernel@lists.debian.org)",
        "\u{a0}non breaking\u{2003}em space\u{3000}",
        "\u{85}next line\u{1680}ogham\u{2028}ls\u{2029}ps\u{202f}nn\u{205f}mm",
        "\u{200b}zero width is no space\u{200b}",
        "x\u{1c}y\u{1f}z",
        "a:b:c",
        ":a::b:",
        "::",
        "model name\t: Intel(R) Core(TM) i7-8550U CPU @ 1.80GHz",
        "h\u{e9}llo w\u{f6}rld \u{1f600} done",
        "VGA",
        "3D controller",
        "a VG A 3D  controller",
        "xxVGAxx",
        "3D controlle",
    ]
}

#[test]
fn chars_of_gives_every_character() {
    for s in samples() {
        let expected: Vec<char> = s.chars().collect();
        assert_eq!(chars_of(s), expected);
    }
}

#[test]
fn is_whitespace_agrees_with_std() {
    let mut n: u32 = 0;
    while n <= 0x10FFFF {
        if let Some(c) = char::from_u32(n) {
            assert_eq!(is_whitespace(c), c.is_whitespace(), "U+{:04X}", n);
        }
        n += 1;
    }
}

#[test]
fn trim_agrees_with_std() {
    for s in samples() {
        assert_eq!(trim(s), s.trim(), "{:?}", s);
    }
}

#[test]
fn trim_keeps_inner_whitespace() {
    assert_eq!(trim(" \t a  b \n"), "a  b");
    assert_eq!(trim("   "), "");
    assert_eq!(trim(""), "");
    assert_eq!(trim("x"), "x");
}

#[test]
fn trim_is_idempotent() {
    for s in samples() {
        let once = trim(s);
        assert_eq!(trim(&once), once);
    }
}

#[test]
fn lines_agree_with_std() {
    for s in samples() {
        let expected: Vec<String> = s.lines().map(|l| l.to_string()).collect();
        assert_eq!(lines_of(s), expected, "{:?}", s);
    }
}

#[test]
fn lines_drop_the_line_ending_only() {
    assert_eq!(lines_of("a\r\nb\n\nc"), vec!["a", "b", "", "c"]);
    assert_eq!(lines_of("a\n"), vec!["a"]);
    assert_eq!(lines_of("\n"), vec![""]);
    assert_eq!(lines_of(""), Vec::<String>::new());
    assert_eq!(lines_of("a\rb\n"), vec!["a\rb"]);
}

#[test]
fn tokens_agree_with_std() {
    for s in samples() {
        let expected: Vec<String> = s.split_whitespace().map(|l| l.to_string()).collect();
        assert_eq!(tokens_of(s), expected, "{:?}", s);
    }
}

#[test]
fn tokens_of_a_blank_text_are_none() {
    assert_eq!(tokens_of(" \t\n "), Vec::<String>::new());
    assert_eq!(tokens_of(" a  bc "), vec!["a", "bc"]);
}

#[test]
fn tokens_inside_a_range() {
    let s = "ab cd ef gh";
    let v = chars_of(s);
    let found = token_spans(&v, Span { start: 1, end: 7 });
    let texts: Vec<String> = found.iter().map(|span| cut(s, *span)).collect();
    assert_eq!(texts, vec!["b", "cd", "e"]);
}

#[test]
fn fields_agree_with_std() {
    for s in samples() {
        for sep in [':', '[', '/', ' '] {
            let expected: Vec<String> = s.split(sep).map(|l| l.to_string()).collect();
            assert_eq!(fields_of(s, sep), expected, "{:?}", s);
        }
    }
}

#[test]
fn fields_keep_empty_pieces() {
    assert_eq!(fields_of("", ':'), vec![""]);
    assert_eq!(fields_of(":", ':'), vec!["", ""]);
    assert_eq!(fields_of("a:b", ':'), vec!["a", "b"]);
}

#[test]
fn contains_agrees_with_std() {
    for s in samples() {
        for pat in ["VGA", "3D controller", "", "a", "::", "controller", "\u{e9}l"] {
            assert_eq!(holds(s, pat), s.contains(pat), "{:?} in {:?}", pat, s);
        }
    }
}

#[test]
fn contains_inside_a_range_only() {
    let s = "VGA and more";
    let v = chars_of(s);
    let pat = chars_of("VGA");
    assert!(span_contains(&v, Span { start: 0, end: 3 }, &pat));
    assert!(!span_contains(&v, Span { start: 1, end: 12 }, &pat));
    assert!(!span_contains(&v, Span { start: 0, end: 2 }, &pat));
    assert!(span_contains(&v, Span { start: 5, end: 5 }, &Vec::new()));
}

#[test]
fn cut_counts_characters_not_bytes() {
    let s = "h\u{e9}llo w\u{f6}rld";
    assert_eq!(cut(s, Span { start: 1, end: 5 }), "\u{e9}llo");
    assert_eq!(cut(s, Span { start: 6, end: 11 }), "w\u{f6}rld");
    assert_eq!(cut(s, Span { start: 3, end: 3 }), "");
}

#[test]
fn parse_i64_agrees_with_std() {
    let inputs = [
        "",
        "0",
        "7",
        "-7",
        "+7",
        "+",
        "-",
        "+-7",
        "--7",
        "007",
        "-007",
        "16000000",
        "9223372036854775807",
        "9223372036854775808",
        "-9223372036854775808",
        "-9223372036854775809",
        "18446744073709551615",
        "18446744073709551616",
        "340282366920938463463374607431768211456",
        "000000000000000000000000000000000000000000012",
        "12a",
        "a12",
        "1 2",
        " 12",
        "12 ",
        "1.5",
        "1e3",
        "\u{661}\u{662}",
        "0x10",
    ];
    for s in inputs {
        assert_eq!(number_of(s), s.parse::<i64>().ok(), "{:?}", s);
    }
}

#[test]
fn parse_i64_exact_values() {
    assert_eq!(number_of("16000000"), Some(16000000));
    assert_eq!(number_of("-42"), Some(-42));
    assert_eq!(number_of("+42"), Some(42));
    assert_eq!(number_of("-9223372036854775808"), Some(i64::MIN));
    assert_eq!(number_of("9223372036854775807"), Some(i64::MAX));
    assert_eq!(number_of("9223372036854775808"), None);
    assert_eq!(number_of("kB"), None);
}

#[test]
fn read_digits_tells_the_three_outcomes() {
    let v = chars_of("123x18446744073709551616");
    assert!(matches!(read_digits(&v, Span { start: 0, end: 3 }), DigitRun::Value(123)));
    assert!(matches!(read_digits(&v, Span { start: 0, end: 4 }), DigitRun::Invalid));
    assert!(matches!(read_digits(&v, Span { start: 4, end: 24 }), DigitRun::TooLarge));
    assert!(matches!(
        read_digits(&v, Span { start: 4, end: 23 }),
        DigitRun::Value(1844674407370955161)
    ));
    assert!(matches!(read_digits(&v, Span { start: 2, end: 2 }), DigitRun::Value(0)));
    let w = chars_of("18446744073709551615");
    assert!(matches!(read_digits(&w, whole_span(&w)), DigitRun::Value(u64::MAX)));
}

#[test]
fn push_decimal_agrees_with_std() {
    for n in [0u64, 1, 9, 10, 11, 99, 100, 120, 1024, 15625, 999999, u64::MAX] {
        let mut out = String::from("n=");
        push_decimal(&mut out, n);
        assert_eq!(out, format!("n={}", n));
    }
}

#[test]
fn push_signed_decimal_agrees_with_std() {
    for n in [0i64, 1, -1, 10, -10, 11718, -11718, i64::MAX, i64::MIN, i64::MIN + 1] {
        let mut out = String::from("n=");
        push_signed_decimal(&mut out, n);
        assert_eq!(out, format!("n={}", n));
    }
}

#[test]
fn decimal_round_trip() {
    for n in [0i64, 5, -5, 1234567890123, i64::MAX, i64::MIN] {
        let mut out = String::new();
        push_signed_decimal(&mut out, n);
        assert_eq!(number_of(&out), Some(n));
    }
}
