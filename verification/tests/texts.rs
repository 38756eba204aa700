use record_replay_ocr::cut::truncate_string_to_bytes;
use record_replay_ocr::number::{
    decimal_i64, decimal_u128, decimal_u64, parse_i64, parse_u32, parse_u64,
};
use record_replay_ocr::text::{
    contains, contains_case_insensitive, is_blank, is_whitespace, join, lines, split,
    strip_prefix, to_lower, trim,
};

fn samples() -> Vec<&'static str> {
    vec![
        "",
        " ",
        "plain",
        "  both ends\t",
        "\u{3000}ideographic\u{2003}",
        "one\ntwo",
        "one\r\ntwo\r\n",
        "one\n\ntwo\n",
        "\n",
        "\r",
        "a\rb\n\r\nc\r",
        "Grüße, Ünïcode 漢字 🙂",
        "bank.EXAMPLE Account",
        "\u{85}\u{a0}",
        "tab\tseparated\t\tfields",
    ]
}

#[test]
fn white_space_is_that_of_unicode() {
    for n in 0..=0x10ffffu32 {
        if let Some(c) = char::from_u32(n) {
            assert_eq!(is_whitespace(c), c.is_whitespace(), "{n:x}");
        }
    }
}

#[test]
fn trimming_takes_white_space_off_both_ends() {
    for s in samples() {
        assert_eq!(trim(s), s.trim());
        assert_eq!(is_blank(s), s.trim().is_empty());
    }
}

#[test]
fn lines_end_at_line_breaks() {
    for s in samples() {
        assert_eq!(lines(s), s.lines().collect::<Vec<_>>(), "{s:?}");
    }
}

#[test]
fn split_pieces_join_to_the_text() {
    for s in samples() {
        let pieces = split(s, '\t');
        assert_eq!(pieces, s.split('\t').collect::<Vec<_>>());
        assert_eq!(join(&pieces, "\t"), s);
    }
}

#[test]
fn lower_case_touches_ascii_letters_only() {
    for s in samples() {
        assert_eq!(to_lower(s), s.to_ascii_lowercase());
    }
}

#[test]
fn containment_is_that_of_substrings() {
    for haystack in samples() {
        for needle in ["", "a", "E", "two", "漢字", "example", "\n", "🙂"] {
            assert_eq!(contains(haystack, needle), haystack.contains(needle));
            assert_eq!(
                contains_case_insensitive(haystack, needle),
                haystack
                    .to_ascii_lowercase()
                    .contains(&needle.to_ascii_lowercase())
            );
        }
    }
    assert!(contains_case_insensitive("Bank.Example", "bANK"));
    assert!(!contains_case_insensitive("Ünïcode", "ünïcode"));
}

#[test]
fn prefixes_are_stripped_once() {
    assert_eq!(strip_prefix("gpu:0", "gpu:").as_deref(), Some("0"));
    assert_eq!(strip_prefix("gpu:gpu:", "gpu:").as_deref(), Some("gpu:"));
    assert_eq!(strip_prefix("gp", "gpu:"), None);
    assert_eq!(strip_prefix("cpu:0", "gpu:"), None);
    assert_eq!(strip_prefix("漢字", "漢").as_deref(), Some("字"));
}

#[test]
fn numbers_are_read_as_decimals() {
    for s in [
        "", "+", "-", "0", "-0", "+7", "007", "1a", " 1", "9223372036854775807",
        "9223372036854775808", "-9223372036854775808", "-9223372036854775809",
        "18446744073709551615", "18446744073709551616", "+-1", "٣",
    ] {
        assert_eq!(parse_i64(s), s.parse::<i64>().ok(), "{s:?}");
        assert_eq!(parse_u64(s), s.parse::<u64>().ok(), "{s:?}");
    }
}

#[test]
fn pixel_counts_below_one_read_as_zero() {
    assert_eq!(parse_u32("12"), 12);
    assert_eq!(parse_u32("-12"), 0);
    assert_eq!(parse_u32("0"), 0);
    assert_eq!(parse_u32("twelve"), 0);
    assert_eq!(parse_u32("4294967295"), u32::MAX);
    assert_eq!(parse_u32("4294967297"), 1);
}

#[test]
fn numbers_are_written_and_read_back() {
    for n in [0, 7, 10, 99, 1_000_000, u64::MAX] {
        assert_eq!(decimal_u64(n), n.to_string());
        assert_eq!(parse_u64(&decimal_u64(n)), Some(n));
    }
    for n in [0, -1, 5, i64::MIN, i64::MAX] {
        assert_eq!(decimal_i64(n), n.to_string());
        assert_eq!(parse_i64(&decimal_i64(n)), Some(n));
    }
    assert_eq!(decimal_u128(u128::MAX), u128::MAX.to_string());
}

#[test]
fn cuts_fall_between_characters() {
    let whole = "aé漢🙂z";
    let expected = ["", "a", "a", "aé", "aé", "aé", "aé漢", "aé漢", "aé漢", "aé漢", "aé漢🙂"];
    for (max, expected) in expected.iter().enumerate() {
        let mut s = whole.to_string();
        assert!(truncate_string_to_bytes(&mut s, max));
        assert_eq!(&s, expected, "{max}");
        assert!(s.len() <= max);
        assert!(!truncate_string_to_bytes(&mut s, max));
        assert_eq!(&s, expected);
    }
    let mut s = whole.to_string();
    assert!(!truncate_string_to_bytes(&mut s, whole.len()));
    assert_eq!(s, whole);
}
