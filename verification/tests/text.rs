use snarf::error::AppError;
use snarf::system::digest;
use snarf::text::{
    bytes_of, char_count, comes_before, contains, ends_with, is_white_space, join, lines,
    normalize_whitespace, pad_right, parse_number, parse_signed, replace, show, show_hex, split,
    split_once, starts_with, strip_prefix, take_chars, to_ascii_lowercase, trim, trim_end,
    trim_end_matches, trim_start, trim_start_matches, words,
};
use snarf::types::is_zero;

const SAMPLES: [&str; 12] = [
    "",
    " ",
    "a",
    " a b ",
    "a\r\nb\n\nc",
    "a\rb\r",
    "\u{00A0}x\u{2003}\u{3000}",
    "\n",
    "data: x: y",
    "aXbXXc",
    "\u{1F600} smile \u{00E4}\u{0085}",
    "vvv1.2v",
];

#[test]
fn white_space_is_that_of_unicode() {
    for code in 0..0x11_0000u32 {
        if let Some(c) = char::from_u32(code) {
            assert_eq!(is_white_space(c), c.is_whitespace(), "{code:x}");
        }
    }
}

#[test]
fn texts_are_cut_as_std_cuts_them() {
    for text in SAMPLES {
        assert_eq!(trim(text), text.trim());
        assert_eq!(trim_start(text), text.trim_start());
        assert_eq!(trim_end(text), text.trim_end());
        assert_eq!(trim_start_matches(text, 'v'), text.trim_start_matches('v'));
        assert_eq!(trim_end_matches(text, 'c'), text.trim_end_matches('c'));
        assert_eq!(lines(text), text.lines().collect::<Vec<_>>());
        assert_eq!(words(text), text.split_whitespace().collect::<Vec<_>>());
        assert_eq!(
            normalize_whitespace(text),
            text.split_whitespace().collect::<Vec<_>>().join(" ")
        );
        assert_eq!(
            split_once(text, ':'),
            text.split_once(':').map(|(a, b)| (a.to_string(), b.to_string()))
        );
        assert_eq!(split(text, "X"), text.split("X").collect::<Vec<_>>());
        assert_eq!(replace(text, "X", "--"), text.replace("X", "--"));
        assert_eq!(char_count(text), text.chars().count());
        assert_eq!(bytes_of(text), text.len() as u128);
        assert_eq!(take_chars(text, 2), text.chars().take(2).collect::<String>());
        assert_eq!(to_ascii_lowercase(text), text.to_ascii_lowercase());
        assert_eq!(pad_right(text, 5), format!("{text:<5}"));
        for other in SAMPLES {
            assert_eq!(contains(text, other), text.contains(other));
            assert_eq!(starts_with(text, other), text.starts_with(other));
            assert_eq!(ends_with(text, other), text.ends_with(other));
            assert_eq!(
                strip_prefix(text, other),
                text.strip_prefix(other).map(|rest| rest.to_string())
            );
            assert_eq!(comes_before(text, other), text < other, "{text:?} {other:?}");
        }
    }
}

#[test]
fn numbers_are_read_as_std_reads_them() {
    for text in ["", "+", "-", "0", "+7", "007", "-3", "12a", "18446744073709551615", "18446744073709551616", "9223372036854775807", "-9223372036854775808", "9223372036854775808", "\u{0663}"] {
        match text.parse::<u64>() {
            Ok(value) => assert_eq!(parse_number(text, u64::MAX).unwrap(), value),
            Err(error) => assert_eq!(
                parse_number(text, u64::MAX).unwrap_err().message(),
                error.to_string(),
                "{text:?}"
            ),
        }
        assert_eq!(parse_signed(text), text.parse::<i64>().ok(), "{text:?}");
    }
    assert!(parse_number("256", 255).is_err());
    assert_eq!(parse_number("255", 255).unwrap(), 255);
}

#[test]
fn numbers_are_written_as_std_writes_them() {
    for value in [0, 7, 10, 99, 12345, u64::MAX] {
        assert_eq!(show(value), value.to_string());
    }
    for value in [0, 255, 0xdead_beef] {
        assert_eq!(show_hex(value, 8), format!("{value:08x}"));
    }
    let parts = vec!["a".to_string(), String::new(), "c".to_string()];
    assert_eq!(join(&parts, ", "), "a, , c");
    assert_eq!(join(&Vec::new(), ", "), "");
    assert!(is_zero(&0));
    assert!(!is_zero(&1));
}

#[test]
fn digests_are_short() {
    assert_eq!(digest("abc"), "ba7816bf8f01cfea");
    assert_ne!(digest("a"), digest("b"));
}

#[test]
fn errors_show_their_messages() {
    assert_eq!(AppError::validation("a".to_string()).message(), "a");
    assert_eq!(AppError::not_found("b".to_string()).message(), "b");
    assert_eq!(AppError::upstream("c".to_string()).message(), "c");
    assert_eq!(AppError::precondition("d".to_string()).message(), "d");
    assert_eq!(AppError::RegexUnsupported.message(), "regex unsupported");
    let error = AppError::upstream("c".to_string()).with_upstream_context("x");
    assert_eq!(error.message(), "x: c");
    let error = AppError::validation("a".to_string()).with_upstream_context("x");
    assert_eq!(error.message(), "a");
}
