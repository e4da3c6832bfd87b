use hbview3::text::{
    chars_of, format_i64, literal_value_exec, parse_i64, replace_pair_exec, same_text, split_lines,
    string_of, strip_quotes_exec, IntErrorKind,
};

fn text(v: &[char]) -> String {
    v.iter().collect()
}

#[test]
fn format_i64_writes_decimal() {
    assert_eq!(text(&format_i64(0)), "0");
    assert_eq!(text(&format_i64(42)), "42");
    assert_eq!(text(&format_i64(-7)), "-7");
    assert_eq!(text(&format_i64(i64::MIN)), "-9223372036854775808");
    assert_eq!(text(&format_i64(i64::MAX)), "9223372036854775807");
}

#[test]
fn parse_i64_follows_str_parse() {
    let p = |s: &str| parse_i64(&chars_of(s));
    assert_eq!(p("42"), Ok(42));
    assert_eq!(p("+5"), Ok(5));
    assert_eq!(p("-9223372036854775808"), Ok(i64::MIN));
    assert_eq!(p(""), Err(IntErrorKind::Empty));
    assert_eq!(p("-"), Err(IntErrorKind::InvalidDigit));
    assert_eq!(p("0x10"), Err(IntErrorKind::InvalidDigit));
    assert_eq!(p("9223372036854775808"), Err(IntErrorKind::PosOverflow));
    assert_eq!(p("-9223372036854775809"), Err(IntErrorKind::NegOverflow));
}

#[test]
fn parse_i64_agrees_with_std_on_samples() {
    for s in ["0", "007", "-0", "12a", " 1", "99999999999999999999", "+", "-12"] {
        let expected = s.parse::<i64>().ok();
        assert_eq!(parse_i64(&chars_of(s)).ok(), expected, "{s}");
    }
}

#[test]
fn split_lines_keeps_empty_pieces() {
    let lines: Vec<String> = split_lines("a\n\nb\n").iter().map(|l| text(l)).collect();
    assert_eq!(lines, vec!["a", "", "b", ""]);
    let one: Vec<String> = split_lines("").iter().map(|l| text(l)).collect();
    assert_eq!(one, vec![""]);
}

#[test]
fn literal_value_unescapes() {
    let v = literal_value_exec(&chars_of("\"Hi\\n\\t\\\"x\\\"\\\\\""));
    assert_eq!(text(&v), "Hi\n\t\"x\"\\");
    assert_eq!(text(&strip_quotes_exec(&chars_of("\"ab\""))), "ab");
    assert_eq!(text(&strip_quotes_exec(&chars_of("ab"))), "ab");
    assert_eq!(text(&strip_quotes_exec(&chars_of("\""))), "\"");
}

#[test]
fn replace_pair_matches_str_replace() {
    for s in ["\\\\n", "a\\nb\\n", "\\", "n\\"] {
        let r = replace_pair_exec(&chars_of(s), '\\', 'n', '\n');
        assert_eq!(text(&r), s.replace("\\n", "\n"));
    }
}

#[test]
fn string_helpers_round_trip() {
    assert_eq!(string_of(&chars_of("héllo")), "héllo");
    assert!(same_text("abc", "abc"));
    assert!(!same_text("abc", "abd"));
}

#[test]
fn format_then_parse_round_trip() {
    for v in [0i64, 1, -1, 9, 10, -10, 123456789, i64::MAX, i64::MIN] {
        assert_eq!(parse_i64(&format_i64(v)), Ok(v));
    }
}

#[test]
fn plain_literal_reads_as_its_text() {
    assert_eq!(text(&literal_value_exec(&chars_of("\"Hello, 3DS!\""))), "Hello, 3DS!");
    assert_eq!(text(&literal_value_exec(&chars_of("\"\""))), "");
}
