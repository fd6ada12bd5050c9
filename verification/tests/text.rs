use memory_agent::text::{
    chars_of, followed_by, eq_ignore_ascii_case, join, parse_usize, same_text, split_lines,
    starts_with, strip_prefix, take_chars, trim, white_space,
};
use memory_agent::text_set::TextSet;

fn owned(parts: &[&str]) -> Vec<String> {
    parts.iter().map(|p| p.to_string()).collect()
}

#[test]
fn white_space_agrees_with_char_for_every_char() {
    for n in 0..=0x10ffffu32 {
        if let Some(c) = char::from_u32(n) {
            assert_eq!(white_space(c), c.is_whitespace(), "{:x}", n);
        }
    }
}

#[test]
fn trim_removes_white_space_at_both_ends_only() {
    assert_eq!(trim("  a b \t\r\n"), "a b");
    assert_eq!(trim("\u{3000}记忆\u{a0}"), "记忆");
    assert_eq!(trim("   "), "");
    assert_eq!(trim(""), "");
    assert_eq!(trim("x"), "x");
    for s in ["", " ", "\u{feff}a", "a\u{200b}", "\u{2003}a\u{2009} b\u{85}", "\n\n甲\n乙\n"] {
        assert_eq!(trim(s), s.trim());
        assert_eq!(trim(trim(s)), trim(s));
    }
}

#[test]
fn lines_agree_with_the_standard_library() {
    for s in [
        "", "a", "a\n", "a\nb", "a\r\nb\r\n", "\n", "\r\n", "\r", "a\r", "a\r\r\nb", "\n\na", "a\rb\n",
        "甲\n乙\r\n丙", "a\n\n",
    ] {
        let expected: Vec<String> = s.lines().map(|l| l.to_string()).collect();
        assert_eq!(split_lines(s), expected, "{:?}", s);
    }
}

#[test]
fn lines_of_a_text_with_both_endings() {
    assert_eq!(split_lines("a\r\nb\nc"), owned(&["a", "b", "c"]));
    assert_eq!(split_lines("a\n"), owned(&["a"]));
}

#[test]
fn join_puts_the_separator_between() {
    assert_eq!(join(&owned(&[]), ", "), "");
    assert_eq!(join(&owned(&["a"]), ", "), "a");
    assert_eq!(join(&owned(&["a", "", "c"]), ", "), "a, , c");
}

#[test]
fn joining_lines_gives_the_text_back() {
    for s in ["a", "a\nb", "a\n\n  b", "记忆\n第二行"] {
        assert_eq!(join(&split_lines(s), "\n"), s);
    }
    assert_eq!(join(&split_lines("a\r\nb"), "\n"), "a\nb");
}

#[test]
fn prefixes() {
    assert!(starts_with("<search-context>\nx", "<search-context>"));
    assert!(!starts_with("<search", "<search-context>"));
    assert!(starts_with("", ""));
    assert_eq!(strip_prefix("- 记忆", "- "), Some("记忆"));
    assert_eq!(strip_prefix("-记忆", "- "), None);
    assert_eq!(take_chars("二零二六年七月十一日早上", 10), "二零二六年七月十一日");
    assert_eq!(take_chars("abc", 10), "abc");
    assert_eq!(followed_by("a", "b"), "ab");
    assert_eq!(chars_of("a记"), vec!['a', '记']);
}

#[test]
fn comparing_texts() {
    assert!(same_text("ab", "ab"));
    assert!(!same_text("ab", "aB"));
    assert!(eq_ignore_ascii_case("QuIt", "quit"));
    assert!(!eq_ignore_ascii_case("quit!", "quit"));
    assert!(!eq_ignore_ascii_case("É", "é"));
    for (a, b) in [("[", "{"), ("@", "`"), ("Zz", "zZ"), ("", "")] {
        assert_eq!(eq_ignore_ascii_case(a, b), a.eq_ignore_ascii_case(b));
    }
}

#[test]
fn numbers_are_read_as_the_standard_library_reads_them() {
    let max = usize::MAX.to_string();
    let over = format!("{}0", max);
    for s in [
        "0", "7", "10", "+5", "007", "", "+", "-1", "++1", "1 ", " 1", "1_000", "12a", "１２",
        max.as_str(), over.as_str(), "99999999999999999999999",
    ] {
        assert_eq!(parse_usize(s), s.parse::<usize>().ok(), "{:?}", s);
    }
    assert_eq!(parse_usize("+042"), Some(42));
}

#[test]
fn a_set_of_texts_holds_each_once() {
    let mut set = TextSet::new();
    assert!(!set.contains("a"));
    set.insert("a".to_string());
    set.insert("a".to_string());
    set.insert("b".to_string());
    assert!(set.contains("a"));
    assert!(set.contains("b"));
    assert!(!set.contains("ab"));
}
