use loki_control::text::{
    format_i64, format_u64, parse_i64, parse_u32, same_text, split_lines, strip_prefix,
    trim_whitespace,
};

#[test]
fn decimal_rendering() {
    assert_eq!(format_u64(0), "0");
    assert_eq!(format_u64(1000), "1000");
    assert_eq!(format_u64(u64::MAX), u64::MAX.to_string());
    assert_eq!(format_i64(-42), "-42");
    assert_eq!(format_i64(i64::MIN), i64::MIN.to_string());
    assert_eq!(format_i64(7), "7");
}

#[test]
fn trimming() {
    assert_eq!(trim_whitespace(" \t45000\r\n"), "45000");
    assert_eq!(trim_whitespace("   "), "");
    assert_eq!(trim_whitespace("a b"), "a b");
    assert_eq!(trim_whitespace("\u{b}\u{a0}x\u{3000}\u{2003}\u{85}"), "x");
    for s in ["\u{b}45000\u{b}", "\u{2028}a\u{202f}", "\u{1680} b \u{205f}", "\u{200b}z"] {
        assert_eq!(trim_whitespace(s), s.trim());
    }
}

#[test]
fn signed_parsing() {
    assert_eq!(parse_i64("45000\n"), Some(45000));
    assert_eq!(parse_i64("-12"), Some(-12));
    assert_eq!(parse_i64("+12"), Some(12));
    assert_eq!(parse_i64("9223372036854775807"), Some(i64::MAX));
    assert_eq!(parse_i64("-9223372036854775808"), Some(i64::MIN));
    assert_eq!(parse_i64("9223372036854775808"), None);
    assert_eq!(parse_i64("99999999999999999999999"), None);
    assert_eq!(parse_i64("4 5"), None);
    assert_eq!(parse_i64("-"), None);
    assert_eq!(parse_i64(""), None);
    assert_eq!(parse_i64("45.5"), None);
    assert_eq!(parse_i64("45000\u{b}"), Some(45000));
    assert_eq!(parse_i64("\u{a0}-7\u{3000}"), Some(-7));
}

#[test]
fn unsigned_parsing() {
    assert_eq!(parse_u32("255\n"), Some(255));
    assert_eq!(parse_u32("4294967295"), Some(u32::MAX));
    assert_eq!(parse_u32("4294967296"), None);
    assert_eq!(parse_u32("-0"), None);
    assert_eq!(parse_u32("+"), None);
    assert_eq!(parse_u32("255\u{b}"), Some(255));
}

#[test]
fn lines_like_std() {
    for s in ["", "a", "a\n", "a\r\nb", "a\n\nb\n", "\n", "x\ry\r\n", "end\r"] {
        let got = split_lines(s);
        let want: Vec<String> = s.lines().map(|l| l.to_string()).collect();
        assert_eq!(got, want, "for {:?}", s);
    }
}

#[test]
fn prefixes_and_equality() {
    assert_eq!(strip_prefix("Default Sink: x", "Default Sink:"), Some(" x"));
    assert_eq!(strip_prefix("Default", "Default Sink:"), None);
    assert!(same_text("aynec", "aynec"));
    assert!(!same_text("aynec", "ayned"));
}
