use homun_runtime::stdlib::strings::{
    char_at, chars, check_can_pad, contains, ends_with, find, is_alnum, is_alpha, is_digit,
    is_empty, is_lower, is_upper, join, lines, pad_left, pad_right, parse_int, repeat, replace,
    split, starts_with, strip_prefix, strip_suffix, substr, to_lower, to_upper, trim, trim_end,
    trim_start,
};

fn samples() -> Vec<&'static str> {
    vec![
        "",
        " ",
        "a",
        "ab",
        "aab",
        "abab",
        "a,b,,c",
        ",a,",
        ",,",
        "  padded\t\n",
        "\u{a0}nbsp\u{2003}",
        "héllo wörld",
        "日本語",
        "line one\nline two\r\nline three\r",
        "\n",
        "\r\n",
        "a\n\nb\n",
        "\r",
        "aaa",
        "-12",
        "+7",
    ]
}

#[test]
fn test_split_examples() {
    assert_eq!(split("a,b,c", ","), vec!["a", "b", "c"]);
    assert_eq!(split("a,b,,c", ","), vec!["a", "b", "", "c"]);
    assert_eq!(split(",a,", ","), vec!["", "a", ""]);
    assert_eq!(split("abc", ","), vec!["abc"]);
    assert_eq!(split("", ","), vec![""]);
    assert_eq!(split("a--b---c", "--"), vec!["a", "b", "-c"]);
    assert_eq!(split("aaa", "aa"), vec!["", "a"]);
}

#[test]
fn test_split_empty_separator() {
    assert_eq!(split("abc", ""), vec!["", "a", "b", "c", ""]);
    assert_eq!(split("", ""), vec!["", ""]);
    assert_eq!(split("é", ""), vec!["", "é", ""]);
}

#[test]
fn test_split_agrees_with_std() {
    for s in samples() {
        for sep in ["", ",", ",,", "a", "ab", "aa", " ", "\n", "é", "語", "line"] {
            let expected: Vec<String> = s.split(sep).map(|x| x.to_string()).collect();
            assert_eq!(split(s, sep), expected, "split({:?}, {:?})", s, sep);
        }
    }
}

#[test]
fn test_join_examples() {
    let parts = vec!["a".to_string(), "b".to_string(), "c".to_string()];
    assert_eq!(join(&parts, ", "), "a, b, c");
    assert_eq!(join(&parts, ""), "abc");
    assert_eq!(join(&parts[..1], ", "), "a");
    assert_eq!(join(&[], ", "), "");
    assert_eq!(join(&["".to_string(), "".to_string()], "-"), "-");
}

#[test]
fn test_join_undoes_split() {
    for s in samples() {
        for sep in [",", "a", "ab", " ", "\n"] {
            assert_eq!(join(&split(s, sep), sep), s);
        }
    }
}

#[test]
fn test_trim_examples() {
    assert_eq!(trim("  hi  "), "hi");
    assert_eq!(trim("\t\nhi there\r\n"), "hi there");
    assert_eq!(trim("   "), "");
    assert_eq!(trim(""), "");
    assert_eq!(trim("hi"), "hi");
    assert_eq!(trim_start("  hi  "), "hi  ");
    assert_eq!(trim_end("  hi  "), "  hi");
    assert_eq!(trim_start("   "), "");
    assert_eq!(trim_end("   "), "");
    assert_eq!(trim("\u{a0}x\u{2003}"), "x");
}

#[test]
fn test_trim_agrees_with_std() {
    for s in samples() {
        assert_eq!(trim(s), s.trim());
        assert_eq!(trim_start(s), s.trim_start());
        assert_eq!(trim_end(s), s.trim_end());
    }
}

#[test]
fn test_starts_and_ends_with() {
    assert!(starts_with("hello", "he"));
    assert!(starts_with("hello", ""));
    assert!(starts_with("hello", "hello"));
    assert!(!starts_with("hello", "hello!"));
    assert!(!starts_with("hello", "el"));
    assert!(starts_with("", ""));
    assert!(ends_with("hello", "lo"));
    assert!(ends_with("hello", ""));
    assert!(ends_with("hello", "hello"));
    assert!(!ends_with("hello", "ohello"));
    assert!(!ends_with("hello", "ll"));
    for s in samples() {
        for p in samples() {
            assert_eq!(starts_with(s, p), s.starts_with(p));
            assert_eq!(ends_with(s, p), s.ends_with(p));
        }
    }
}

#[test]
fn test_replace_examples() {
    assert_eq!(replace("a-b-c", "-", "+"), "a+b+c");
    assert_eq!(replace("aaa", "aa", "b"), "ba");
    assert_eq!(replace("abc", "x", "y"), "abc");
    assert_eq!(replace("abc", "b", ""), "ac");
    assert_eq!(replace("ab", "", "-"), "-a-b-");
    assert_eq!(replace("", "", "x"), "x");
    assert_eq!(replace("", "a", "x"), "");
}

#[test]
fn test_replace_agrees_with_std() {
    for s in samples() {
        for from in ["", ",", "a", "ab", "aa", " ", "\n", "é"] {
            for to in ["", "-", "ab", "語"] {
                assert_eq!(replace(s, from, to), s.replace(from, to));
            }
        }
    }
}

#[test]
fn test_case_conversion() {
    assert_eq!(to_upper("Hello, World 1"), "HELLO, WORLD 1");
    assert_eq!(to_lower("Hello, World 1"), "hello, world 1");
    assert_eq!(to_upper("straße"), "STRASSE");
    assert_eq!(to_lower("ΑΣ"), "ας");
    assert_eq!(to_upper(""), "");
    assert_eq!(to_lower(""), "");
}

#[test]
fn test_chars_examples() {
    assert_eq!(chars("abc"), vec!["a", "b", "c"]);
    assert_eq!(chars("é語"), vec!["é", "語"]);
    assert_eq!(chars(""), Vec::<String>::new());
}

#[test]
fn test_find_examples() {
    assert_eq!(find("hello", "l"), 2);
    assert_eq!(find("hello", "lo"), 3);
    assert_eq!(find("hello", ""), 0);
    assert_eq!(find("hello", "x"), -1);
    assert_eq!(find("", "x"), -1);
    assert_eq!(find("", ""), 0);
    // the offset counts bytes
    assert_eq!(find("héllo", "l"), 3);
    assert_eq!(find("日本語", "語"), 6);
}

#[test]
fn test_find_and_contains_agree_with_std() {
    for s in samples() {
        for sub in samples() {
            let expected = s.find(sub).map(|i| i as i32).unwrap_or(-1);
            assert_eq!(find(s, sub), expected);
            assert_eq!(contains(s, sub), s.contains(sub));
        }
    }
}

#[test]
fn test_repeat_examples() {
    assert_eq!(repeat("ab", 3), "ababab");
    assert_eq!(repeat("ab", 1), "ab");
    assert_eq!(repeat("ab", 0), "");
    assert_eq!(repeat("", 5), "");
    assert_eq!(repeat("", -5), "");
}

#[test]
fn test_substr_examples() {
    assert_eq!(substr("hello world", 0, 5), "hello");
    assert_eq!(substr("hello world", 6, 11), "world");
    assert_eq!(substr("hello world", 6, 100), "world");
    assert_eq!(substr("hello world", -5, 11), "world");
    assert_eq!(substr("hello world", 0, -6), "hello");
    assert_eq!(substr("hello world", -100, 2), "he");
    assert_eq!(substr("hello world", 3, 3), "");
    assert_eq!(substr("hello world", 5, 2), "");
    assert_eq!(substr("", 0, 0), "");
    assert_eq!(substr("", -1, 1), "");
}

#[test]
fn test_substr_inside_character_is_empty() {
    // 'é' takes the bytes 1 and 2
    assert_eq!(substr("héllo", 0, 1), "h");
    assert_eq!(substr("héllo", 0, 2), "");
    assert_eq!(substr("héllo", 2, 4), "");
    assert_eq!(substr("héllo", 1, 3), "é");
    assert_eq!(substr("héllo", 0, 3), "hé");
}

#[test]
fn test_substr_agrees_with_get() {
    for s in samples() {
        let len = s.len() as i32;
        for start in -(len + 2)..(len + 3) {
            for end in -(len + 2)..(len + 3) {
                let from = if start < 0 { (len + start).max(0) } else { start.min(len) } as usize;
                let to = if end < 0 { (len + end).max(0) } else { end.min(len) } as usize;
                assert_eq!(substr(s, start, end), s.get(from..to).unwrap_or(""));
            }
        }
    }
}

#[test]
fn test_strip_prefix_and_suffix() {
    assert_eq!(strip_prefix("prefix-body", "prefix-"), "body");
    assert_eq!(strip_prefix("prefix-body", "body"), "prefix-body");
    assert_eq!(strip_prefix("body", ""), "body");
    assert_eq!(strip_prefix("body", "body"), "");
    assert_eq!(strip_prefix("", "body"), "");
    assert_eq!(strip_suffix("body.txt", ".txt"), "body");
    assert_eq!(strip_suffix("body.txt", "body"), "body.txt");
    assert_eq!(strip_suffix("body", ""), "body");
    assert_eq!(strip_suffix("body", "body"), "");
    assert_eq!(strip_suffix("", ".txt"), "");
    for s in samples() {
        for p in samples() {
            assert_eq!(strip_prefix(s, p), s.strip_prefix(p).unwrap_or(s));
            assert_eq!(strip_suffix(s, p), s.strip_suffix(p).unwrap_or(s));
        }
    }
}

#[test]
fn test_lines_examples() {
    assert_eq!(lines("a\nb\nc"), vec!["a", "b", "c"]);
    assert_eq!(lines("a\nb\n"), vec!["a", "b"]);
    assert_eq!(lines("a\r\nb\r\n"), vec!["a", "b"]);
    assert_eq!(lines("a\n\nb"), vec!["a", "", "b"]);
    assert_eq!(lines(""), Vec::<String>::new());
    assert_eq!(lines("\n"), vec![""]);
    assert_eq!(lines("no newline"), vec!["no newline"]);
    // a carriage return alone ends no line
    assert_eq!(lines("a\rb"), vec!["a\rb"]);
    assert_eq!(lines("a\r"), vec!["a\r"]);
    assert_eq!(lines("a\r\r\nb"), vec!["a\r", "b"]);
}

#[test]
fn test_lines_agree_with_std() {
    for s in samples() {
        let expected: Vec<String> = s.lines().map(|l| l.to_string()).collect();
        assert_eq!(lines(s), expected, "lines({:?})", s);
    }
    for s in ["\r\n\r\n", "\n\r", "\r\r", "x\r\n", "x\n\r\ny\r", "\r\nx"] {
        let expected: Vec<String> = s.lines().map(|l| l.to_string()).collect();
        assert_eq!(lines(s), expected, "lines({:?})", s);
    }
}

#[test]
fn test_is_empty_text() {
    assert!(is_empty(""));
    assert!(!is_empty(" "));
    assert!(!is_empty("a"));
}

#[test]
fn test_class_tests_hold_of_empty_text() {
    assert!(is_digit(""));
    assert!(is_alpha(""));
    assert!(is_alnum(""));
    assert!(is_upper(""));
    assert!(is_lower(""));
}

#[test]
fn test_class_tests() {
    assert!(is_digit("0123456789"));
    assert!(!is_digit("12a"));
    assert!(!is_digit("١٢"));
    assert!(is_alpha("abcXYZ"));
    assert!(is_alpha("héllo"));
    assert!(!is_alpha("abc1"));
    assert!(is_alnum("abc123"));
    assert!(is_alnum("١٢"));
    assert!(!is_alnum("abc 123"));
    assert!(is_upper("ABC"));
    assert!(!is_upper("ABc"));
    assert!(!is_upper("AB1"));
    assert!(is_lower("abc"));
    assert!(!is_lower("abC"));
    assert!(!is_lower("ab1"));
}

#[test]
fn test_class_tests_agree_with_std() {
    for s in samples() {
        assert_eq!(is_digit(s), s.chars().all(|c| c.is_ascii_digit()));
        assert_eq!(is_alpha(s), s.chars().all(|c| c.is_alphabetic()));
        assert_eq!(is_alnum(s), s.chars().all(|c| c.is_alphanumeric()));
        assert_eq!(is_upper(s), s.chars().all(|c| c.is_uppercase()));
        assert_eq!(is_lower(s), s.chars().all(|c| c.is_lowercase()));
    }
}

#[test]
fn test_pad_left_examples() {
    assert_eq!(pad_left("7", 3, "0"), "007");
    assert_eq!(pad_left("abc", 3, "0"), "abc");
    assert_eq!(pad_left("abcd", 3, "0"), "abcd");
    assert_eq!(pad_left("x", 6, "ab"), "ababax");
    assert_eq!(pad_left("x", 5, "ab"), "ababx");
    assert_eq!(pad_left("", 2, "-"), "--");
    assert_eq!(pad_left("x", 0, ""), "x");
    // the width counts bytes
    assert_eq!(pad_left("é", 3, "*"), "*é");
    assert_eq!(pad_left("x", 4, "日"), "日x");
    assert_eq!(pad_left("x", 7, "日"), "日日x");
}

#[test]
fn test_pad_right_examples() {
    assert_eq!(pad_right("7", 3, "0"), "700");
    assert_eq!(pad_right("abc", 3, "0"), "abc");
    assert_eq!(pad_right("abcd", 3, "0"), "abcd");
    assert_eq!(pad_right("x", 6, "ab"), "xababa");
    assert_eq!(pad_right("x", 5, "ab"), "xabab");
    assert_eq!(pad_right("", 2, "-"), "--");
    assert_eq!(pad_right("é", 3, "*"), "é*");
}

#[test]
fn test_check_can_pad() {
    assert!(check_can_pad("x", 5, "ab"));
    assert!(check_can_pad("x", 0, ""));
    assert!(check_can_pad("xyz", 2, ""));
    assert!(!check_can_pad("x", 5, ""));
    assert!(!check_can_pad("x", -1, "ab"));
    assert!(!check_can_pad("xyz", -1, "ab"));
    // the last copy of the filling must not be cut inside a character
    assert!(check_can_pad("x", 4, "日"));
    assert!(!check_can_pad("x", 5, "日"));
    assert!(!check_can_pad("x", 6, "日"));
    assert!(check_can_pad("x", 5, "é"));
    assert!(!check_can_pad("x", 4, "é"));
    assert!(check_can_pad("x", 5, "日a"));
    assert!(!check_can_pad("x", 3, "日a"));
}

#[test]
fn test_char_at_examples() {
    assert_eq!(char_at("hello", 0), "h");
    assert_eq!(char_at("hello", 4), "o");
    assert_eq!(char_at("hello", 5), "");
    assert_eq!(char_at("hello", -1), "o");
    assert_eq!(char_at("hello", -5), "h");
    // further back than the first character reads the first
    assert_eq!(char_at("hello", -6), "h");
    assert_eq!(char_at("hello", i32::MIN), "h");
    assert_eq!(char_at("hello", i32::MAX), "");
    assert_eq!(char_at("", 0), "");
    assert_eq!(char_at("", -1), "");
    // positions count characters
    assert_eq!(char_at("héllo", 2), "l");
    assert_eq!(char_at("日本語", -1), "語");
}

#[test]
fn test_parse_int_examples() {
    assert_eq!(parse_int("42"), 42);
    assert_eq!(parse_int("-42"), -42);
    assert_eq!(parse_int("+42"), 42);
    assert_eq!(parse_int("  42\n"), 42);
    assert_eq!(parse_int("007"), 7);
    assert_eq!(parse_int("0"), 0);
    assert_eq!(parse_int("-0"), 0);
    assert_eq!(parse_int("2147483647"), i32::MAX);
    assert_eq!(parse_int("-2147483648"), i32::MIN);
}

#[test]
fn test_parse_int_gives_zero_for_what_is_no_number() {
    assert_eq!(parse_int(""), 0);
    assert_eq!(parse_int("   "), 0);
    assert_eq!(parse_int("abc"), 0);
    assert_eq!(parse_int("12a"), 0);
    assert_eq!(parse_int("1 2"), 0);
    assert_eq!(parse_int("-"), 0);
    assert_eq!(parse_int("+"), 0);
    assert_eq!(parse_int("--1"), 0);
    assert_eq!(parse_int("+-1"), 0);
    assert_eq!(parse_int("1.5"), 0);
    assert_eq!(parse_int("١٢"), 0);
    assert_eq!(parse_int("2147483648"), 0);
    assert_eq!(parse_int("-2147483649"), 0);
    assert_eq!(parse_int("99999999999999999999999999"), 0);
    assert_eq!(parse_int("-99999999999999999999999999"), 0);
}

#[test]
fn test_parse_int_agrees_with_std() {
    let texts = [
        "", "0", "-0", "+0", "00", "1", "-1", "+1", " 1", "1 ", "\t-17\n", "2147483647",
        "2147483648", "-2147483648", "-2147483649", "21474836470", "0000000000000001", "1e3",
        "0x10", "1_000", "+", "-", "+-", "٣", "\u{a0}5\u{a0}", "5\u{2003}", "- 5",
    ];
    for s in texts {
        assert_eq!(parse_int(s), s.trim().parse::<i32>().unwrap_or(0), "parse_int({:?})", s);
    }
    for s in samples() {
        assert_eq!(parse_int(s), s.trim().parse::<i32>().unwrap_or(0), "parse_int({:?})", s);
    }
}
