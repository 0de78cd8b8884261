use mediatools::text::{joined, contains, ends_with, lines, parse_usize, trim};

#[test]
fn contains_finds_a_pattern_anywhere() {
    assert!(contains("an Error here", "Error"));
    assert!(contains("Error", "Error"));
    assert!(contains("xxError", "Error"));
    assert!(contains("anything", ""));
    assert!(contains("", ""));
    assert!(!contains("Erro", "Error"));
    assert!(!contains("", "a"));
    assert!(!contains("Err or", "Error"));
    assert!(contains("aab", "ab"));
}

#[test]
fn contains_agrees_with_std() {
    let texts = ["", "a", "libfdk_aac", "aac", "aa", "caac", "\u{e9}aac\u{e9}", "a\u{e9}c"];
    let pats = ["", "a", "aac", "ac", "\u{e9}", "c\u{e9}", "x"];
    for t in texts.iter() {
        for p in pats.iter() {
            assert_eq!(contains(t, p), t.contains(p));
            assert_eq!(ends_with(t, p), t.ends_with(p));
        }
    }
}

#[test]
fn ends_with_looks_at_the_end() {
    assert!(ends_with("128k", "k"));
    assert!(!ends_with("k128", "k"));
    assert!(ends_with("k", "k"));
    assert!(!ends_with("", "k"));
    assert!(ends_with("abc", ""));
}

#[test]
fn numbers_are_read_strictly() {
    assert_eq!(parse_usize("0"), Some(0));
    assert_eq!(parse_usize("007"), Some(7));
    assert_eq!(parse_usize("+12"), Some(12));
    assert_eq!(parse_usize("1000"), Some(1000));
    assert_eq!(parse_usize(""), None);
    assert_eq!(parse_usize("+"), None);
    assert_eq!(parse_usize("-1"), None);
    assert_eq!(parse_usize("++1"), None);
    assert_eq!(parse_usize("1+"), None);
    assert_eq!(parse_usize(" 1"), None);
    assert_eq!(parse_usize("1 "), None);
    assert_eq!(parse_usize("12a"), None);
    assert_eq!(parse_usize("1*"), None);
    assert_eq!(parse_usize("\u{661}"), None);
}

#[test]
fn numbers_stop_at_the_largest_usize() {
    let max = usize::MAX.to_string();
    assert_eq!(parse_usize(&max), Some(usize::MAX));
    let mut over = max.clone();
    over.push('0');
    assert_eq!(parse_usize(&over), None);
    let digits: Vec<char> = max.chars().collect();
    let mut next = digits.clone();
    let last = next.len() - 1;
    next[last] = char::from_digit(digits[last].to_digit(10).unwrap() + 1, 10).unwrap();
    let next: String = next.into_iter().collect();
    assert_eq!(parse_usize(&next), None);
    assert_eq!(parse_usize("99999999999999999999999999999999999999999x"), None);
}

#[test]
fn numbers_agree_with_std() {
    let texts = ["0", "+0", "42", "+", "", "-0", "18446744073709551615", "18446744073709551616",
        "00000000000000000000000001", "4294967296", "٣", "1_000", "0x10"];
    for t in texts.iter() {
        assert_eq!(parse_usize(t), t.parse::<usize>().ok());
    }
}

#[test]
fn trim_removes_whitespace_at_both_ends() {
    assert_eq!(trim("  a b  "), "a b");
    assert_eq!(trim("\t\r\na\u{a0}\u{3000}"), "a");
    assert_eq!(trim("a"), "a");
    assert_eq!(trim("   "), "");
    assert_eq!(trim(""), "");
    assert_eq!(trim("\u{200b}a"), "\u{200b}a");
}

#[test]
fn trim_agrees_with_std() {
    let texts = ["", " ", " a", "a ", " a b ", "\u{2003}x\u{2028}", "\u{85}\u{1680}y\u{205f}", "\r\n"];
    for t in texts.iter() {
        assert_eq!(trim(t), t.trim());
    }
}

#[test]
fn lines_end_at_line_feeds() {
    assert_eq!(lines("a\nb"), vec!["a", "b"]);
    assert_eq!(lines("a\nb\n"), vec!["a", "b"]);
    assert_eq!(lines("a\r\nb\r\n"), vec!["a", "b"]);
    assert_eq!(lines("a\n\nb"), vec!["a", "", "b"]);
    assert_eq!(lines("\n"), vec![""]);
    assert_eq!(lines("a\rb"), vec!["a\rb"]);
    assert_eq!(lines("a\r"), vec!["a\r"]);
    assert_eq!(lines("a\r\r\n"), vec!["a\r"]);
    assert!(lines("").is_empty());
}

#[test]
fn lines_agree_with_std() {
    let texts = ["", "\n", "\r\n", "\r", "a", "a\n", "a\r\n", "a\n\r", "a\r\nb\rc\n\nd", "\n\n", "x\r\n\r\n", "\r\r\n\r"];
    for t in texts.iter() {
        let expected: Vec<String> = t.lines().map(|l| l.to_string()).collect();
        assert_eq!(lines(t), expected);
    }
}

#[test]
fn joined_holds_both_strings() {
    assert_eq!(joined("title=", "A B"), "title=A B");
    assert_eq!(joined("", ""), "");
}
