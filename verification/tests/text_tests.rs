use engine_mate_stats::text::{
    find_text, is_whitespace, parse_i32, parse_number, parse_u32, parse_u64, parse_usize,
    push_decimal, render_decimal, split_whitespace, starts_with, text_eq, to_chars,
};

fn samples() -> Vec<&'static str> {
    vec![
        "",
        " ",
        "+",
        "-",
        "0",
        "-0",
        "+0",
        "007",
        "+5",
        "-5",
        "--5",
        "+-5",
        "5+",
        "12a",
        " 12",
        "12 ",
        "1 2",
        "255",
        "256",
        "2147483647",
        "2147483648",
        "-2147483648",
        "-2147483649",
        "+2147483647",
        "4294967295",
        "4294967296",
        "18446744073709551615",
        "18446744073709551616",
        "+18446744073709551615",
        "000000000000000000000000000018446744073709551615",
        "99999999999999999999999999999999",
        "\u{ff11}\u{ff12}",
        "1\u{0661}",
        "0x10",
        "1e3",
        "1_000",
    ]
}

#[test]
fn whitespace_is_the_unicode_property() {
    let mut code: u32 = 0;
    while code <= 0x10FFFF {
        if let Some(c) = char::from_u32(code) {
            assert_eq!(is_whitespace(c), c.is_whitespace(), "U+{:04X}", code);
        }
        code += 1;
    }
}

#[test]
fn to_chars_keeps_every_character() {
    assert_eq!(to_chars(""), Vec::<char>::new());
    assert_eq!(to_chars("a\u{e9}\u{4e16}z"), vec!['a', '\u{e9}', '\u{4e16}', 'z']);
}

#[test]
fn split_whitespace_agrees_with_std() {
    let lines = vec![
        "",
        " ",
        "   \t  ",
        "info depth 5 nodes 1000",
        "  leading and trailing  ",
        "tabs\tand\nnewlines\r\nmixed",
        "one",
        "a\u{a0}b\u{2003}c\u{3000}d",
        "no-break\u{200b}zero-width",
        "bestmove e2e4 ponder e7e5",
        "\u{e9}t\u{e9} \u{4e16}\u{754c}",
    ];
    for line in lines {
        let expected: Vec<String> = line.split_whitespace().map(|t| t.to_string()).collect();
        assert_eq!(split_whitespace(line), expected, "{:?}", line);
    }
}

#[test]
fn split_whitespace_gives_the_tokens_in_order() {
    assert_eq!(split_whitespace("  go   nodes 10 "), vec!["go", "nodes", "10"]);
    assert_eq!(split_whitespace(" \t "), Vec::<String>::new());
}

#[test]
fn text_eq_compares_characters() {
    assert!(text_eq("", ""));
    assert!(text_eq("uciok", "uciok"));
    assert!(!text_eq("uciok", "uciok "));
    assert!(!text_eq("uciok", "ucioK"));
    assert!(!text_eq("a", ""));
}

#[test]
fn starts_with_agrees_with_std() {
    let cases = vec![
        ("info depth 1", "info "),
        ("info", "info "),
        ("information", "info "),
        ("bestmove", "bestmove"),
        ("bestmovee2e4", "bestmove"),
        (" bestmove e2e4", "bestmove"),
        ("", ""),
        ("abc", ""),
        ("", "a"),
        ("id name \u{e9}", "id name "),
    ];
    for (line, prefix) in cases {
        assert_eq!(starts_with(line, prefix), line.starts_with(prefix), "{:?} {:?}", line, prefix);
    }
}

#[test]
fn find_text_gives_the_first_occurrence() {
    assert_eq!(find_text("mate 3", "mate "), Some(0));
    assert_eq!(find_text("score mate 3 mate 4", "mate "), Some(6));
    assert_eq!(find_text("mate", "mate "), None);
    assert_eq!(find_text("cp 34", "mate "), None);
    assert_eq!(find_text("abc", ""), Some(0));
    assert_eq!(find_text("", ""), Some(0));
    assert_eq!(find_text("", "a"), None);
    assert_eq!(find_text("aab", "ab"), Some(1));
    assert_eq!(find_text("ab", "abc"), None);
}

#[test]
fn find_text_counts_characters_not_bytes() {
    assert_eq!(find_text("\u{e9}\u{e9}mate 1", "mate "), Some(2));
    assert_eq!("\u{e9}\u{e9}mate 1".find("mate "), Some(4));
}

#[test]
fn parse_u64_agrees_with_std() {
    for s in samples() {
        assert_eq!(parse_u64(s), s.parse::<u64>().ok(), "{:?}", s);
    }
}

#[test]
fn parse_u32_agrees_with_std() {
    for s in samples() {
        assert_eq!(parse_u32(s), s.parse::<u32>().ok(), "{:?}", s);
    }
}

#[test]
fn parse_usize_agrees_with_std() {
    for s in samples() {
        assert_eq!(parse_usize(s), s.parse::<usize>().ok(), "{:?}", s);
    }
}

#[test]
fn parse_i32_agrees_with_std() {
    for s in samples() {
        assert_eq!(parse_i32(s), s.parse::<i32>().ok(), "{:?}", s);
    }
}

#[test]
fn parse_number_respects_the_bound() {
    assert_eq!(parse_number("255", 255), Some(255));
    assert_eq!(parse_number("256", 255), None);
    assert_eq!(parse_number("0", 0), Some(0));
    assert_eq!(parse_number("1", 0), None);
    assert_eq!(parse_number("+0000", 0), Some(0));
}

#[test]
fn parse_extremes_have_exact_values() {
    assert_eq!(parse_u64("18446744073709551615"), Some(u64::MAX));
    assert_eq!(parse_u32("4294967295"), Some(u32::MAX));
    assert_eq!(parse_i32("-2147483648"), Some(i32::MIN));
    assert_eq!(parse_i32("2147483647"), Some(i32::MAX));
    assert_eq!(parse_i32("-17"), Some(-17));
}

#[test]
fn render_decimal_agrees_with_to_string() {
    let values: Vec<u64> = vec![0, 1, 9, 10, 11, 99, 100, 101, 12345, 1_000_000, u32::MAX as u64, u64::MAX - 1, u64::MAX];
    for v in values {
        assert_eq!(render_decimal(v), v.to_string());
    }
}

#[test]
fn push_decimal_appends_behind_what_is_there() {
    let mut out = String::from("go nodes ");
    push_decimal(&mut out, 10000);
    assert_eq!(out, "go nodes 10000");
    push_decimal(&mut out, 0);
    assert_eq!(out, "go nodes 100000");
}

#[test]
fn rendered_numbers_parse_back() {
    let values: Vec<u64> = vec![0, 7, 10, 4294967295, 4294967296, u64::MAX];
    for v in values {
        assert_eq!(parse_u64(&render_decimal(v)), Some(v));
    }
}
