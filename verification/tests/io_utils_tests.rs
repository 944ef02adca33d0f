use filefuser::io_utils::{is_text, simple_pattern_to_regex, simple_patterns_to_regexps,
    to_io_err_with_context};

#[test]
fn simple_pattern_to_regex_test_simple_pattern() {
    let result = simple_pattern_to_regex("*.txt");
    assert_eq!(".*.*\\.txt", result.as_str());
}

#[test]
fn simple_pattern_to_regex_test_path_pattern() {
    let result = simple_pattern_to_regex("test/*/*.rs");
    assert_eq!(".*test/.*/.*\\.rs", result.as_str());
}

#[test]
fn simple_pattern_to_regex_test_empty_string() {
    let result = simple_pattern_to_regex("");
    assert_eq!(".*", result.as_str());
}

#[test]
fn is_text_test_empty() {
    assert!(is_text(&[]));
}

#[test]
fn is_text_test_sample_string() {
    assert!(is_text("Hello, world!".as_bytes()));
}

#[test]
fn is_text_test_binary_bytes() {
    assert!(!is_text(&[0, 1, 2, 3, 4, 5, 6, 7, 8, 9]));
}

#[test]
fn is_text_nul_anywhere_is_binary() {
    assert!(!is_text(&[b'a', b'b', 0, b'c']));
    assert!(!is_text(&[0]));
}

#[test]
fn is_text_invalid_utf8_with_few_controls_is_text() {
    // 0xff makes the sample invalid UTF-8; no unusual control characters,
    // so the control fraction is 0 and the sample counts as text.
    assert!(is_text(&[0xff, b'a', b'b', b'c']));
}

#[test]
fn is_text_invalid_utf8_with_many_controls_is_binary() {
    // invalid UTF-8 and three of four bytes are unusual controls: 75%,
    // not strictly below 30%.
    assert!(!is_text(&[0xff, 0x01, 0x02, 0x03]));
}

#[test]
fn is_text_control_fraction_boundary() {
    // exactly 3 controls out of 10 is not strictly below 0.30.
    let mut bytes = vec![0xff_u8; 7];
    bytes.extend_from_slice(&[0x01, 0x01, 0x01]);
    assert!(!is_text(&bytes));
    // 2 controls out of 10 is below 0.30.
    let mut bytes = vec![0xff_u8; 8];
    bytes.extend_from_slice(&[0x01, 0x01]);
    assert!(is_text(&bytes));
}

#[test]
fn is_text_whitespace_controls_do_not_count() {
    // newline, carriage return and tab are not unusual controls.
    assert!(is_text(&[0xff, b'\n', b'\r', b'\t']));
}

#[test]
fn patterns_to_regexps_translates_each() {
    let patterns = vec!["*.txt".to_string(), "a.b".to_string()];
    let result = simple_patterns_to_regexps(&patterns).unwrap();
    assert_eq!(result.len(), 2);
    assert_eq!(".*.*\\.txt", result[0].as_str());
    assert_eq!(".*a\\.b", result[1].as_str());
}

#[test]
fn io_err_context_is_prefixed() {
    let msg = to_io_err_with_context("error making search dir absolute", "permission denied");
    assert_eq!("error making search dir absolute: permission denied", msg.as_str());
}
