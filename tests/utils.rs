use lox::utils::{error, is_alpha, is_alphanumeric, is_digit, report};

#[test]
fn digits() {
    assert!(is_digit('0'));
    assert!(is_digit('9'));
    assert!(!is_digit('a'));
    assert!(!is_digit('/'));
    assert!(!is_digit(':'));
    assert!(!is_digit('\u{663}'));
}

#[test]
fn letters_and_underscore() {
    assert!(is_alpha('a'));
    assert!(is_alpha('Z'));
    assert!(is_alpha('_'));
    assert!(!is_alpha('5'));
    assert!(!is_alpha('@'));
    assert!(!is_alpha('\u{e9}'));
    assert!(is_alphanumeric('5'));
    assert!(is_alphanumeric('q'));
    assert!(is_alphanumeric('_'));
    assert!(!is_alphanumeric('-'));
}

#[test]
fn error_carries_line_and_message() {
    let e = error(7, "bad".to_string()).unwrap_err();
    assert_eq!(e.line, 7);
    assert_eq!(e.message, "bad");
}

#[test]
fn report_formats_diagnostics() {
    assert_eq!(report(42, "", "msg"), "[line 42] Error : msg");
    assert_eq!(report(0, "at end", "m"), "[line 0] Error at end: m");
    assert_eq!(report(9, "", ""), "[line 9] Error : ");
    assert_eq!(report(1000907, "", "x"), "[line 1000907] Error : x");
    assert_eq!(report(usize::MAX, "", "x"), format!("[line {}] Error : x", usize::MAX));
}
