use stackalert::text::{
    join, parse_natural, parse_whole, split_list, trim, write_decimal, write_signed_decimal,
};

#[test]
fn lists_are_taken_apart() {
    assert_eq!(split_list("telegram"), vec!["telegram"]);
    assert_eq!(split_list(" telegram , slack,,  ,ses "), vec!["telegram", "slack", "ses"]);
    assert!(split_list("").is_empty());
    assert!(split_list(" , ,").is_empty());
    assert_eq!(split_list("a b,\u{3000}c\u{a0}"), vec!["a b", "c"]);
}

#[test]
fn blanks_are_trimmed() {
    for text in ["", " ", " a ", "\t\na b\r\n", "\u{2003}x\u{85}", "\u{200b}x", "a"] {
        assert_eq!(trim(text), text.trim());
    }
}

#[test]
fn texts_are_joined() {
    let parts = vec!["a".to_string(), "b".to_string(), String::new()];
    assert_eq!(join(&parts, ", "), "a, b, ");
    assert_eq!(join(&Vec::new(), ", "), "");
}

#[test]
fn whole_numbers_are_written_and_read_back() {
    for n in [0i64, 1, -1, 9, 10, 99, 100, -1774612800, i64::MAX, i64::MIN] {
        assert_eq!(write_signed_decimal(n), n.to_string());
        assert_eq!(parse_whole(&n.to_string()), Some(n));
    }
    for n in [0u64, 7, 1234567890, u64::MAX] {
        assert_eq!(write_decimal(n), n.to_string());
        assert_eq!(parse_natural(&n.to_string(), u64::MAX), Some(n));
    }
}

#[test]
fn what_is_no_natural_number_is_not_read() {
    for text in ["", "+", "-1", " 1", "1 ", "1.0", "0x1", "18446744073709551616", "a", "++1"] {
        assert!(text.parse::<u64>().is_err());
        assert_eq!(parse_natural(text, u64::MAX), None);
    }
    assert_eq!(parse_natural("+7", 9), Some(7));
    assert_eq!(parse_natural("007", 9), Some(7));
    assert_eq!(parse_natural("10", 9), None);
}
