use homun_runtime::str_ext::{str_pad_center, str_repeat};

// ── str_repeat ──────────────────────────────────────────

#[test]
fn test_str_repeat_zero() {
    assert_eq!(str_repeat("abc", 0), "");
}

#[test]
fn test_str_repeat_negative() {
    assert_eq!(str_repeat("abc", -1), "");
}

#[test]
fn test_str_repeat_once() {
    assert_eq!(str_repeat("hello", 1), "hello");
}

#[test]
fn test_str_repeat_multiple() {
    assert_eq!(str_repeat("ab", 3), "ababab");
}

#[test]
fn test_str_repeat_single_char() {
    assert_eq!(str_repeat(" ", 5), "     ");
    assert_eq!(str_repeat("-", 4), "----");
}

#[test]
fn test_str_repeat_empty_string() {
    assert_eq!(str_repeat("", 10), "");
}

// An owned string is passed by reference.
#[test]
fn test_str_repeat_string_type() {
    assert_eq!(str_repeat(&" ".to_string(), 3), "   ");
    assert_eq!(str_repeat(&"-".to_string(), 2), "--");
}

// ── str_pad_center ──────────────────────────────────────

#[test]
fn test_str_pad_center_even_padding() {
    let result = str_pad_center("hi", 6);
    assert_eq!(result, "  hi  ");
    assert_eq!(result.chars().count(), 6);
}

#[test]
fn test_str_pad_center_odd_padding() {
    let result = str_pad_center("hi", 7);
    assert_eq!(result, "  hi   ");
    assert_eq!(result.chars().count(), 7);
}

#[test]
fn test_str_pad_center_already_full_width() {
    assert_eq!(str_pad_center("hello", 5), "hello");
}

#[test]
fn test_str_pad_center_wider_than_width() {
    assert_eq!(str_pad_center("toolong", 4), "toolong");
}

#[test]
fn test_str_pad_center_empty_string() {
    let result = str_pad_center("", 4);
    assert_eq!(result, "    ");
}

#[test]
fn test_str_pad_center_single_char_even_width() {
    let result = str_pad_center("X", 5);
    assert_eq!(result, "  X  ");
    assert_eq!(result.chars().count(), 5);
}

#[test]
fn test_str_pad_center_width_zero() {
    assert_eq!(str_pad_center("a", 0), "a");
}

#[test]
fn test_str_pad_center_width_one_exact() {
    assert_eq!(str_pad_center("x", 1), "x");
}

// An owned string is passed by reference.
#[test]
fn test_str_pad_center_string_type() {
    assert_eq!(str_pad_center(&"hi".to_string(), 6), "  hi  ");
    assert_eq!(str_pad_center(&"".to_string(), 4), "    ");
}

// ── more of both ─────────────────────────────────────────
#[test]
fn test_str_repeat_agrees_with_std() {
    for s in ["", "a", "ab", "é", "日本"] {
        for n in -2..5 {
            let expected = if n <= 0 { String::new() } else { s.repeat(n as usize) };
            assert_eq!(str_repeat(s, n), expected);
        }
    }
    assert_eq!(str_repeat("abc", i32::MIN), "");
}

#[test]
fn test_str_pad_center_counts_characters() {
    assert_eq!(str_pad_center("é", 3), " é ");
    assert_eq!(str_pad_center("日本", 5), " 日本  ");
    assert_eq!(str_pad_center("日本", 2), "日本");
}

#[test]
fn test_str_pad_center_negative_width() {
    assert_eq!(str_pad_center("a", -1), "a");
    assert_eq!(str_pad_center("", -1), "");
    assert_eq!(str_pad_center("a", i32::MIN), "a");
}

#[test]
fn test_str_pad_center_extra_space_goes_right() {
    assert_eq!(str_pad_center("ab", 3), "ab ");
    assert_eq!(str_pad_center("", 1), " ");
    assert_eq!(str_pad_center("abc", 8), "  abc   ");
}
