use gadgets::text::{format_i32, join_from, parse_i32, same_text, split_words};

#[test]
fn formats_integers() {
    assert_eq!(format_i32(0), "0");
    assert_eq!(format_i32(7), "7");
    assert_eq!(format_i32(120), "120");
    assert_eq!(format_i32(-45), "-45");
    assert_eq!(format_i32(i32::MAX), "2147483647");
    assert_eq!(format_i32(i32::MIN), "-2147483648");
}

#[test]
fn parses_integers_like_std() {
    assert_eq!(parse_i32("0"), Some(0));
    assert_eq!(parse_i32("42"), Some(42));
    assert_eq!(parse_i32("+42"), Some(42));
    assert_eq!(parse_i32("-42"), Some(-42));
    assert_eq!(parse_i32("007"), Some(7));
    assert_eq!(parse_i32("2147483647"), Some(i32::MAX));
    assert_eq!(parse_i32("-2147483648"), Some(i32::MIN));
    assert_eq!(parse_i32("2147483648"), None);
    assert_eq!(parse_i32("-2147483649"), None);
    assert_eq!(parse_i32("99999999999999999999"), None);
    assert_eq!(parse_i32(""), None);
    assert_eq!(parse_i32("-"), None);
    assert_eq!(parse_i32("+"), None);
    assert_eq!(parse_i32("1a"), None);
    assert_eq!(parse_i32(" 1"), None);
    for t in ["5", "-17", "+3", "x", "", "12345678901", "--1"] {
        assert_eq!(parse_i32(t), t.parse::<i32>().ok());
    }
}

#[test]
fn splits_on_whitespace() {
    assert_eq!(split_words("  a bb\tccc \n"), vec!["a", "bb", "ccc"]);
    assert!(split_words("").is_empty());
    assert!(split_words(" \t ").is_empty());
    assert_eq!(split_words("x\u{3000}y"), vec!["x", "y"]);
    let line = " one  two\tthree ";
    let mine = split_words(line);
    let std_words: Vec<&str> = line.split_whitespace().collect();
    assert_eq!(mine, std_words);
}

#[test]
fn joins_from_an_index() {
    let ws = vec!["a".to_string(), "b".to_string(), "c d".to_string()];
    assert_eq!(join_from(&ws, 0), "a b c d");
    assert_eq!(join_from(&ws, 1), "b c d");
    assert_eq!(join_from(&ws, 3), "");
}

#[test]
fn compares_text() {
    assert!(same_text("reset", "reset"));
    assert!(!same_text("reset", "resets"));
    assert!(!same_text("reset", "reSet"));
    assert!(same_text("", ""));
}
