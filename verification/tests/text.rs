use clpack::text::{
    all_distinct, chars_eq, clone_strings, ends_with_chars, find_string, occurs_at_chars,
    replace_chars, split_lines, starts_with_chars, str_eq, string_of, to_chars, trim_chars,
    trim_end_chars, trim_start_chars, ucfirst, CharClass,
};

fn chars(s: &str) -> Vec<char> {
    s.chars().collect()
}

fn text(v: &Vec<char>) -> String {
    v.iter().collect()
}

#[test]
fn chars_round_trip() {
    let v = to_chars("héllo");
    assert_eq!(v, vec!['h', 'é', 'l', 'l', 'o']);
    assert_eq!(string_of(&v), "héllo".to_string());
    assert_eq!(string_of(&to_chars("")), "");
}

#[test]
fn str_eq_compares_characters() {
    assert!(str_eq("abc", "abc"));
    assert!(!str_eq("abc", "abd"));
    assert!(!str_eq("abc", "ab"));
    assert!(str_eq("", ""));
    assert!(chars_eq(&chars("ab"), &chars("ab")));
    assert!(!chars_eq(&chars("ab"), &chars("ba")));
}

#[test]
fn trim_whitespace_matches_std() {
    for s in ["", "  ", " a ", "\t\na b\r\n", "a", "\u{a0}x\u{3000}", " # x # "] {
        assert_eq!(text(&trim_chars(&chars(s), CharClass::Whitespace)), s.trim());
        assert_eq!(text(&trim_start_chars(&chars(s), CharClass::Whitespace)), s.trim_start());
        assert_eq!(text(&trim_end_chars(&chars(s), CharClass::Whitespace)), s.trim_end());
    }
}

#[test]
fn trim_heading_marks_and_slashes() {
    assert_eq!(text(&trim_chars(&chars("## Fixes ##"), CharClass::HeadingMark)), "Fixes");
    assert_eq!(text(&trim_chars(&chars("# # #"), CharClass::HeadingMark)), "");
    assert_eq!(text(&trim_chars(&chars("\t# x"), CharClass::HeadingMark)), "\t# x");
    assert_eq!(text(&trim_end_chars(&chars("http://x//"), CharClass::Slash)), "http://x");
    assert_eq!(text(&trim_start_chars(&chars("//a/b"), CharClass::Slash)), "a/b");
}

#[test]
fn split_lines_matches_std() {
    for s in ["", "\n", "a", "a\n", "a\nb", "a\r\nb\r\n", "a\r", "\r\n\r\n", "a\n\nb\n\n", "\ra\n"] {
        let got: Vec<String> = split_lines(&chars(s)).iter().map(text).collect();
        let want: Vec<String> = s.lines().map(|l| l.to_string()).collect();
        assert_eq!(got, want, "for {:?}", s);
    }
}

#[test]
fn replace_matches_std_for_non_empty_patterns() {
    let cases = [
        ("abcabc", "b", "xy"),
        ("aaaa", "aa", "b"),
        ("aaa", "aa", "b"),
        ("CHANGELOG-{CHANNEL}.md", "{CHANNEL}", "BETA"),
        ("abc", "abcd", "x"),
        ("", "a", "b"),
        ("abc", "c", ""),
        ("ababab", "aba", "-"),
    ];
    for (s, from, to) in cases {
        assert_eq!(
            text(&replace_chars(&chars(s), &chars(from), &chars(to))),
            s.replace(from, to)
        );
    }
}

#[test]
fn replace_with_empty_pattern_changes_nothing() {
    assert_eq!(text(&replace_chars(&chars("abc"), &chars(""), &chars("-"))), "abc");
}

#[test]
fn occurrences_prefixes_and_suffixes() {
    assert!(occurs_at_chars(&chars("hello"), 1, &chars("ell")));
    assert!(!occurs_at_chars(&chars("hello"), 2, &chars("ell")));
    assert!(!occurs_at_chars(&chars("hello"), 4, &chars("ox")));
    assert!(!occurs_at_chars(&chars("hello"), 9, &chars("")));
    assert!(occurs_at_chars(&chars("hello"), 5, &chars("")));
    assert!(starts_with_chars(&chars("hello"), &chars("he")));
    assert!(!starts_with_chars(&chars("hello"), &chars("el")));
    assert!(ends_with_chars(&chars("a.md"), &chars(".md")));
    assert!(!ends_with_chars(&chars("md"), &chars(".md")));
    assert!(ends_with_chars(&chars(".md"), &chars(".md")));
}

#[test]
fn ucfirst_uppercases_first_character() {
    assert_eq!(ucfirst("beta"), "Beta");
    assert_eq!(ucfirst(""), "");
    assert_eq!(ucfirst("Beta"), "Beta");
    assert_eq!(ucfirst("ßeta"), "SSeta");
    assert_eq!(ucfirst("éa"), "Éa");
    assert_eq!(ucfirst("1x"), "1x");
}

#[test]
fn string_lists() {
    let v = vec!["a".to_string(), "b".to_string(), "a".to_string()];
    assert_eq!(find_string(&v, "a"), Some(0));
    assert_eq!(find_string(&v, "b"), Some(1));
    assert_eq!(find_string(&v, "c"), None);
    assert!(!all_distinct(&v));
    assert!(all_distinct(&vec!["a".to_string(), "b".to_string()]));
    assert!(all_distinct(&Vec::new()));
    assert_eq!(clone_strings(&v), v);
}
