use homun_runtime::chars::{is_alnum, is_alpha, is_digit, is_ws};

// ── is_alpha ────────────────────────────────────────────
#[test]
fn test_is_alpha_lowercase() {
    assert!(is_alpha("a"));
    assert!(is_alpha("z"));
    assert!(is_alpha("abc"));
}

#[test]
fn test_is_alpha_uppercase() {
    assert!(is_alpha("A"));
    assert!(is_alpha("Z"));
    assert!(is_alpha("Hello"));
}

#[test]
fn test_is_alpha_false_digit() {
    assert!(!is_alpha("3"));
    assert!(!is_alpha("a1"));
}

#[test]
fn test_is_alpha_false_space() {
    assert!(!is_alpha(" "));
    assert!(!is_alpha("a "));
}

#[test]
fn test_is_alpha_empty() {
    assert!(!is_alpha(""));
}

// An owned string is passed by reference.
#[test]
fn test_is_alpha_string_type() {
    assert!(is_alpha(&"a".to_string()));
    assert!(!is_alpha(&"3".to_string()));
    assert!(!is_alpha(&"".to_string()));
}

// ── is_alnum ────────────────────────────────────────────
#[test]
fn test_is_alnum_letters() {
    assert!(is_alnum("a"));
    assert!(is_alnum("Z"));
}

#[test]
fn test_is_alnum_digits() {
    assert!(is_alnum("0"));
    assert!(is_alnum("9"));
    assert!(is_alnum("42"));
}

#[test]
fn test_is_alnum_mixed() {
    assert!(is_alnum("a3"));
    assert!(is_alnum("foo123"));
}

#[test]
fn test_is_alnum_false_special() {
    assert!(!is_alnum("_"));
    assert!(!is_alnum("a_b"));
    assert!(!is_alnum(" "));
}

#[test]
fn test_is_alnum_empty() {
    assert!(!is_alnum(""));
}

// An owned string is passed by reference.
#[test]
fn test_is_alnum_string_type() {
    assert!(is_alnum(&"a3".to_string()));
    assert!(!is_alnum(&"_".to_string()));
}

// ── is_digit ────────────────────────────────────────────
#[test]
fn test_is_digit_single() {
    for d in '0'..='9' {
        assert!(is_digit(&d.to_string()));
    }
}

#[test]
fn test_is_digit_multi() {
    assert!(is_digit("123"));
    assert!(is_digit("007"));
}

#[test]
fn test_is_digit_false_alpha() {
    assert!(!is_digit("a"));
    assert!(!is_digit("1a"));
}

#[test]
fn test_is_digit_false_space() {
    assert!(!is_digit(" "));
}

#[test]
fn test_is_digit_empty() {
    assert!(!is_digit(""));
}

// An owned string is passed by reference.
#[test]
fn test_is_digit_string_type() {
    assert!(is_digit(&"7".to_string()));
    assert!(!is_digit(&"a".to_string()));
}

// ── is_ws ───────────────────────────────────────────────
#[test]
fn test_is_ws_space() {
    assert!(is_ws(" "));
    assert!(is_ws("   "));
}

#[test]
fn test_is_ws_tab() {
    assert!(is_ws("\t"));
}

#[test]
fn test_is_ws_newline() {
    assert!(is_ws("\n"));
    assert!(is_ws("\r\n"));
}

#[test]
fn test_is_ws_false_letter() {
    assert!(!is_ws("a"));
    assert!(!is_ws(" a"));
}

#[test]
fn test_is_ws_false_digit() {
    assert!(!is_ws("1"));
}

#[test]
fn test_is_ws_empty() {
    assert!(!is_ws(""));
}

// An owned string is passed by reference.
#[test]
fn test_is_ws_string_type() {
    assert!(is_ws(&" ".to_string()));
    assert!(!is_ws(&"a".to_string()));
}

// ── the classes at their borders ─────────────────────────
#[test]
fn test_is_ws_form_feed_and_carriage_return() {
    assert!(is_ws("\x0C"));
    assert!(is_ws("\r"));
    assert!(is_ws(" \t\n\x0C\r"));
}

#[test]
fn test_is_ws_false_for_other_whitespace() {
    // a vertical tab and a no-break space are whitespace, but not ASCII
    // whitespace
    assert!(!is_ws("\x0B"));
    assert!(!is_ws("\u{a0}"));
    assert!(!is_ws("\u{2003}"));
}

#[test]
fn test_is_digit_false_for_other_digits() {
    assert!(!is_digit("٣"));
    assert!(!is_digit("²"));
    assert!(!is_digit("/"));
    assert!(!is_digit(":"));
    assert!(!is_digit("12٣"));
}

#[test]
fn test_is_alpha_and_is_alnum_beyond_ascii() {
    assert!(is_alpha("é"));
    assert!(is_alpha("日本語"));
    assert!(!is_alpha("💝"));
    assert!(is_alnum("日本語٣"));
    assert!(!is_alnum("日本語-"));
}

#[test]
fn test_class_tests_agree_with_char_methods() {
    let texts = ["", "a", "Z", "5", "a5", " ", "\t\r\n", "é", "٣", "_", "a b", "\x0C", "\x0B"];
    for s in texts {
        assert_eq!(is_alpha(s), !s.is_empty() && s.chars().all(|c| c.is_alphabetic()));
        assert_eq!(is_alnum(s), !s.is_empty() && s.chars().all(|c| c.is_alphanumeric()));
        assert_eq!(is_digit(s), !s.is_empty() && s.chars().all(|c| c.is_ascii_digit()));
        assert_eq!(is_ws(s), !s.is_empty() && s.chars().all(|c| c.is_ascii_whitespace()));
    }
}
