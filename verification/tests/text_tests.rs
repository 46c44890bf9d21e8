use pd::text::{decimal_string, parse_u16_str, split, trimmed, usize_to_u64};

#[test]
fn split_keeps_empty_pieces() {
    assert_eq!(split("a,,b", ','), vec!["a".to_string(), "".to_string(), "b".to_string()]);
    assert_eq!(split("", ','), vec!["".to_string()]);
    assert_eq!(split("x,", ','), vec!["x".to_string(), "".to_string()]);
}

#[test]
fn trimmed_removes_unicode_white_space() {
    assert_eq!(trimmed("  a b \t\n"), "a b");
    assert_eq!(trimmed("\u{3000}x\u{a0}"), "x");
    assert_eq!(trimmed("   "), "");
    assert_eq!(trimmed("y"), "y");
}

#[test]
fn decimal_string_matches_format() {
    for n in [0usize, 7, 10, 42, 100, 65535, 1234567] {
        assert_eq!(decimal_string(n), format!("{}", n));
    }
}

#[test]
fn parse_u16_str_matches_std() {
    for s in ["0", "2379", "+80", "65535", "65536", "", "+", "-1", "12a", "0080", "99999999"] {
        assert_eq!(parse_u16_str(s), s.parse::<u16>().ok(), "input {:?}", s);
    }
}

#[test]
fn usize_to_u64_keeps_value() {
    assert_eq!(usize_to_u64(12345), 12345u64);
}

#[test]
fn trimming_twice_changes_nothing() {
    for s in ["  a ", "\t\tb c\n", "", "   ", "x"] {
        let once = trimmed(s);
        assert_eq!(trimmed(&once), once);
        assert_eq!(once, s.trim());
    }
}
