use cargo_whats_new::text::{
    chars_of, contains, ends_with, find, find_from, is_whitespace, join, lines, replace, split_on,
    starts_with, string_of, trim, trim_end_matches, trim_start,
};

fn cs(s: &str) -> Vec<char> {
    chars_of(s)
}

fn st(v: &[char]) -> String {
    string_of(v)
}

fn sts(v: &[Vec<char>]) -> Vec<String> {
    v.iter().map(|l| string_of(l)).collect()
}

#[test]
fn chars_and_string_round_trip() {
    let s = "héllo → wörld";
    assert_eq!(st(&cs(s)), s);
    assert_eq!(st(&cs("")), "");
}

#[test]
fn find_gives_first_occurrence() {
    assert_eq!(find(&cs("abcabc"), &cs("bc")), Some(1));
    assert_eq!(find_from(&cs("abcabc"), &cs("bc"), 2), Some(4));
    assert_eq!(find(&cs("abc"), &cs("x")), None);
    assert_eq!(find(&cs("ab"), &cs("abc")), None);
    assert!(contains(&cs("https://github.com/a/b"), &cs("github.com")));
    assert!(!contains(&cs("https://gitlab.com/a/b"), &cs("github.com")));
}

#[test]
fn prefixes_and_suffixes() {
    assert!(starts_with(&cs("## 1.0"), &cs("#")));
    assert!(!starts_with(&cs(" ## 1.0"), &cs("#")));
    assert!(ends_with(&cs("repo.git"), &cs(".git")));
    assert!(!ends_with(&cs("git"), &cs(".git")));
}

#[test]
fn trim_end_matches_removes_every_trailing_copy() {
    assert_eq!(st(&trim_end_matches(&cs("repo.git.git"), &cs(".git"))), "repo");
    assert_eq!(st(&trim_end_matches(&cs("repo///"), &cs("/"))), "repo");
    assert_eq!(st(&trim_end_matches(&cs("repo"), &cs(".git"))), "repo");
    assert_eq!(st(&trim_end_matches(&cs(".git"), &cs(".git"))), "");
}

#[test]
fn trim_uses_unicode_white_space() {
    assert_eq!(st(&trim(&cs(" \t\n hello world \u{3000}\u{a0}"))), "hello world");
    assert_eq!(st(&trim_start(&cs("  ## x  "))), "## x  ");
    assert_eq!(st(&trim(&cs("   "))), "");
    assert!(is_whitespace('\u{2028}'));
    assert!(!is_whitespace('x'));
    for c in ['\t', '\n', ' ', '\u{85}', '\u{1680}', '\u{2000}', '\u{200a}', '\u{202f}', 'a', '\u{200b}'] {
        assert_eq!(is_whitespace(c), c.is_whitespace());
    }
}

#[test]
fn lines_follow_str_lines() {
    let text = "foo\nbar\n\r\nbaz\r";
    let got = sts(&lines(&cs(text)));
    let want: Vec<String> = text.lines().map(|l| l.to_string()).collect();
    assert_eq!(got, want);
    assert_eq!(got, vec!["foo", "bar", "", "baz\r"]);
    assert_eq!(sts(&lines(&cs("a\r\nb\n"))), vec!["a", "b"]);
    assert!(lines(&cs("")).is_empty());
    assert_eq!(sts(&lines(&cs("\n"))), vec![""]);
}

#[test]
fn split_follows_str_split() {
    let url = "https://github.com/owner/repo";
    let got = sts(&split_on(&cs(url), '/'));
    let want: Vec<String> = url.split('/').map(|p| p.to_string()).collect();
    assert_eq!(got, want);
    assert_eq!(sts(&split_on(&cs(""), '/')), vec![""]);
    assert_eq!(sts(&split_on(&cs("a//"), '/')), vec!["a", "", ""]);
}

#[test]
fn replace_is_left_to_right_without_overlap() {
    assert_eq!(st(&replace(&cs("aaa"), &cs("aa"), &cs("b"))), "ba");
    assert_eq!(st(&replace(&cs("x<br>y<br>"), &cs("<br>"), &cs("\n"))), "x\ny\n");
    assert_eq!(st(&replace(&cs("abc"), &cs("z"), &cs("y"))), "abc");
}

#[test]
fn join_puts_separator_between() {
    let parts = vec![cs("a"), cs("b"), cs("c")];
    assert_eq!(st(&join(&parts, &cs("\n"))), "a\nb\nc");
    assert_eq!(st(&join(&[], &cs("\n"))), "");
    assert_eq!(st(&join(&[cs("one")], &cs(", "))), "one");
}
