use http_server_lib::decimal::parse_decimal;
use http_server_lib::text::{
    chars_of, ends_header_block, first_line_of, has_prefix, is_whitespace, same_text,
    split_char, split_header_line, split_whitespace, strip_prefix, string_of, trim_crlf,
    trim_end,
};

const SAMPLES: [&str; 12] = [
    "",
    " ",
    "GET / HTTP/1.1\r\n",
    "  a  b\tc\n",
    "one",
    "\u{3000}x\u{2029}y\u{85}",
    "/echo/abc",
    "/",
    "a//b/",
    "key: value: more\r\n\r\n",
    "x\r\r\n",
    "ümlaut € 😀",
];

#[test]
fn whitespace_matches_std_for_every_char() {
    for u in 0u32..=0x10FFFF {
        if let Some(c) = char::from_u32(u) {
            assert_eq!(is_whitespace(c), c.is_whitespace(), "char {:x}", u);
        }
    }
}

#[test]
fn split_whitespace_matches_std() {
    for s in SAMPLES {
        let expected: Vec<String> = s.split_whitespace().map(|t| t.to_string()).collect();
        assert_eq!(split_whitespace(s), expected, "{:?}", s);
    }
}

#[test]
fn split_char_matches_std() {
    for s in SAMPLES {
        let expected: Vec<String> = s.split('/').map(|t| t.to_string()).collect();
        assert_eq!(split_char(s, '/'), expected, "{:?}", s);
    }
    assert_eq!(split_char("/echo/abc", '/'), vec!["", "echo", "abc"]);
    assert_eq!(split_char("", '/'), vec![""]);
}

#[test]
fn first_line_matches_std_lines() {
    for s in SAMPLES {
        assert_eq!(first_line_of(s), s.lines().next().unwrap_or(""), "{:?}", s);
    }
    assert_eq!(first_line_of("abc\r\ndef"), "abc");
    assert_eq!(first_line_of("abc\r"), "abc\r");
}

#[test]
fn trims_match_std() {
    for s in SAMPLES {
        assert_eq!(trim_crlf(s), s.trim_end_matches("\r\n"), "{:?}", s);
        assert_eq!(trim_end(s), s.trim_end(), "{:?}", s);
    }
    assert_eq!(trim_crlf("v\r\n\r\n"), "v");
    assert_eq!(trim_crlf("v\n"), "v\n");
}

#[test]
fn split_header_line_matches_split_once() {
    for s in SAMPLES {
        let expected = s.split_once(": ").map(|(a, b)| (a.to_string(), b.to_string()));
        assert_eq!(split_header_line(s), expected, "{:?}", s);
    }
    assert_eq!(
        split_header_line("Host: localhost:4221\r\n"),
        Some(("Host".to_string(), "localhost:4221\r\n".to_string()))
    );
    assert_eq!(split_header_line("Host:x"), None);
}

#[test]
fn parse_decimal_matches_std() {
    let cases = [
        "", "+", "-", "0", "007", "+5", "-1", "12a", " 1", "1 ", "4294967296",
        "18446744073709551615", "18446744073709551616", "99999999999999999999999", "٣",
    ];
    for s in cases {
        assert_eq!(parse_decimal(s), s.parse::<usize>().ok(), "{:?}", s);
    }
    assert_eq!(parse_decimal("+5"), Some(5));
    assert_eq!(parse_decimal("12a"), None);
}

#[test]
fn decimal_roundtrip_on_concrete_values() {
    for n in [0usize, 1, 9, 10, 99, 100, 12345, usize::MAX] {
        assert_eq!(parse_decimal(&n.to_string()), Some(n));
    }
}

#[test]
fn split_then_join_gives_the_text_back() {
    for s in SAMPLES {
        assert_eq!(split_char(s, '/').join("/"), s);
    }
}

#[test]
fn tokens_are_nonempty_words() {
    for s in SAMPLES {
        for t in split_whitespace(s) {
            assert!(!t.is_empty());
            assert!(!t.chars().any(|c| c.is_whitespace()));
        }
    }
}

#[test]
fn helpers_on_concrete_values() {
    assert_eq!(chars_of("añb"), vec!['a', 'ñ', 'b']);
    assert_eq!(string_of(&vec!['a', 'b', 'c', 'd'], 1, 3), "bc");
    assert!(same_text("close", "close"));
    assert!(!same_text("close", "Close"));
    assert!(has_prefix("/echo/x", "/echo"));
    assert!(!has_prefix("/ech", "/echo"));
    assert_eq!(strip_prefix("/echo/x", "/echo/"), Some("x".to_string()));
    assert_eq!(strip_prefix("/echo", "/echo/"), None);
}

#[test]
fn header_block_ends_on_empty_lines_only() {
    assert!(ends_header_block("\r\n"));
    assert!(ends_header_block("\n"));
    assert!(!ends_header_block(""));
    assert!(!ends_header_block("\r"));
    assert!(!ends_header_block(" \r\n"));
    assert!(!ends_header_block("Host: x\r\n"));
}
