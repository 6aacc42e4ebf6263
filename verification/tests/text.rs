use emergence_zk::text::{
    append_chars, char_is_whitespace, chars_of, copy_range, ends_with, join_lines, same_chars,
    split_lines, split_words, starts_with, string_of, strip_prefix, trimmed,
};

fn v(s: &str) -> Vec<char> {
    s.chars().collect()
}

fn strings(parts: Vec<Vec<char>>) -> Vec<String> {
    parts.iter().map(|p| p.iter().collect()).collect()
}

#[test]
fn characters_and_back() {
    assert_eq!(chars_of("aé𝄞"), vec!['a', 'é', '𝄞']);
    assert_eq!(string_of(&vec!['a', 'é', '𝄞']), "aé𝄞");
    assert_eq!(string_of(&chars_of("")), "");
}

#[test]
fn whitespace_is_unicode_white_space() {
    for c in [' ', '\t', '\n', '\r', '\u{0B}', '\u{0C}', '\u{85}', '\u{A0}', '\u{1680}', '\u{2000}', '\u{200A}', '\u{2028}', '\u{2029}', '\u{202F}', '\u{205F}', '\u{3000}'] {
        assert!(char_is_whitespace(c));
    }
    for c in ['a', '-', '\u{200B}', '\u{180E}', '\u{FEFF}', '0'] {
        assert!(!char_is_whitespace(c));
    }
    for n in 0..0x3100u32 {
        if let Some(c) = char::from_u32(n) {
            assert_eq!(char_is_whitespace(c), c.is_whitespace());
        }
    }
}

#[test]
fn lines_end_at_line_feeds() {
    assert_eq!(strings(split_lines(&v("a\nb\r\n\nc"))), vec!["a", "b", "", "c"]);
    assert_eq!(strings(split_lines(&v("a\n"))), vec!["a"]);
    assert_eq!(strings(split_lines(&v("\n"))), vec![""]);
    assert_eq!(strings(split_lines(&v("a\r"))), vec!["a\r"]);
    assert_eq!(strings(split_lines(&v("a\r\r\n"))), vec!["a\r"]);
    assert!(split_lines(&v("")).is_empty());
    for text in ["", "\n", "a", "a\nb", "a\r\nb\n", "\r\n\r\n", "x\n\ny\r"] {
        let expected: Vec<String> = text.lines().map(|l| l.to_string()).collect();
        assert_eq!(strings(split_lines(&v(text))), expected);
    }
}

#[test]
fn words_are_runs_without_whitespace() {
    assert_eq!(strings(split_words(&v("  whoa \t barber\n"))), vec!["whoa", "barber"]);
    assert_eq!(strings(split_words(&v("one"))), vec!["one"]);
    assert!(split_words(&v(" \u{3000} ")).is_empty());
    assert!(split_words(&v("")).is_empty());
}

#[test]
fn trimming_takes_both_ends() {
    assert_eq!(string_of(&trimmed(&v("  ---\t\r"))), "---");
    assert_eq!(string_of(&trimmed(&v("a b"))), "a b");
    assert_eq!(string_of(&trimmed(&v(" \n "))), "");
}

#[test]
fn prefixes_and_suffixes() {
    assert!(starts_with(&v("Title: x"), &v("Title: ")));
    assert!(!starts_with(&v("Titl"), &v("Title: ")));
    assert!(starts_with(&v("abc"), &v("")));
    assert!(ends_with(&v("a.md"), &v(".md")));
    assert!(!ends_with(&v("a.mdx"), &v(".md")));
    assert!(!ends_with(&v("md"), &v(".md")));
    assert_eq!(strip_prefix(&v("Tags: a b"), &v("Tags: ")), Some(v("a b")));
    assert_eq!(strip_prefix(&v("Tags:"), &v("Tags: ")), None);
}

#[test]
fn joining_and_copying() {
    let parts = vec![v("a"), v(""), v("bc")];
    assert_eq!(string_of(&join_lines(&parts, 0)), "a\n\nbc");
    assert_eq!(string_of(&join_lines(&parts, 2)), "bc");
    assert_eq!(string_of(&join_lines(&parts, 3)), "");
    assert_eq!(copy_range(&v("hello"), 1, 3), v("el"));
    let mut head = v("ab");
    append_chars(&mut head, &v("cd"));
    assert_eq!(head, v("abcd"));
    assert!(same_chars(&v("ab"), &v("ab")));
    assert!(!same_chars(&v("ab"), &v("ac")));
    assert!(!same_chars(&v("ab"), &v("abc")));
}
