use clipboard_manager::text::{i64_to_decimal, parse_i64, split_chars, trim_str};

#[test]
fn parse_i64_follows_std() {
    for s in ["0", "42", "-42", "+7", "007", "-0", "9223372036854775807", "-9223372036854775808", "", "+", "-", " 1", "1 ", "1_000", "9223372036854775808", "-9223372036854775809", "+-1", "12a"] {
        assert_eq!(parse_i64(s), s.parse::<i64>().ok(), "input {s:?}");
    }
}

#[test]
fn decimal_formatting_follows_std() {
    for v in [0i64, 1, -1, 10, 99, -100, i64::MAX, i64::MIN, 1234567890] {
        assert_eq!(i64_to_decimal(v), v.to_string());
        assert_eq!(parse_i64(&i64_to_decimal(v)), Some(v));
    }
}

#[test]
fn split_and_trim_follow_std() {
    for s in ["a,b", ",", "", "a,,b,", "abc"] {
        let expected: Vec<String> = s.split(',').map(String::from).collect();
        assert_eq!(split_chars(s, ','), expected);
    }
    for s in ["  x  ", "\t\n y\u{3000}", "", "   ", "a b"] {
        assert_eq!(trim_str(s), s.trim());
    }
}
