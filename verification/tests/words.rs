//! Splitting a bash command line and locating the cursor within it.

use devkit_poe_complete::words::{split_line, split_words};

#[test]
fn splits_a_plain_line_and_locates_the_cursor_at_the_end() {
    let s = split_line("poe build", 9);
    assert_eq!(s.words, ["poe", "build"]);
    assert_eq!(s.cword, 1);
    assert_eq!(s.prefix, "build");
}

#[test]
fn a_cursor_on_trailing_space_starts_a_fresh_word() {
    let s = split_line("poe ", 4);
    assert_eq!(s.words, ["poe"]);
    assert_eq!(s.cword, 1);
    assert_eq!(s.prefix, "");
}

#[test]
fn a_cursor_mid_word_filters_on_the_left_portion_only() {
    let s = split_line("poe build", 6);
    assert_eq!(s.cword, 1);
    assert_eq!(s.prefix, "bu");
}

#[test]
fn keeps_a_quoted_path_as_one_word() {
    let s = split_line("poe run \"my file.txt\"", 21);
    assert_eq!(s.words, ["poe", "run", "my file.txt"]);
    assert_eq!(s.cword, 2);
}

#[test]
fn an_unclosed_quote_does_not_panic() {
    let s = split_line("poe run \"my fi", 14);
    assert_eq!(s.words[0], "poe");
    assert_eq!(s.cword, 2);
    assert_eq!(s.prefix, "my fi");
}

#[test]
fn inline_equals_stays_in_one_word() {
    let s = split_line("poe -C=../other build", 21);
    assert_eq!(s.words, ["poe", "-C=../other", "build"]);
}

#[test]
fn an_offset_past_the_end_is_clamped_rather_than_panicking() {
    let s = split_line("poe", 999);
    assert_eq!(s.words, ["poe"]);
}

#[test]
fn an_offset_inside_a_multibyte_character_is_clamped_to_a_boundary() {
    let s = split_line("poe café", 8);
    assert_eq!(s.words, ["poe", "caf"]);
    assert_eq!(s.prefix, "caf");
}

#[test]
fn an_empty_line_yields_no_words() {
    let s = split_line("", 0);
    assert!(s.words.is_empty());
    assert_eq!(s.cword, 0);
    assert_eq!(s.prefix, "");
}

// ---- further cases -------------------------------------------------------------------------

#[test]
fn an_unclosed_single_quote_is_retried_with_a_single_quote() {
    let s = split_line("poe run 'my fi", 14);
    assert_eq!(s.words, ["poe", "run", "my fi"]);
    assert_eq!(s.prefix, "my fi");
}

#[test]
fn an_escaped_closing_quote_falls_back_to_whitespace_splitting() {
    // `"a\` stays open whichever quote is appended (`\"` is escaped, `\'` is literal inside
    // double quotes), so plain whitespace splitting is used.
    let s = split_line("poe \"a\\", 7);
    assert_eq!(s.words, ["poe", "\"a\\"]);
    assert_eq!(s.cword, 1);
    assert_eq!(s.prefix, "\"a\\");
}

#[test]
fn a_cursor_after_a_tab_starts_a_fresh_word() {
    let s = split_line("poe\t", 4);
    assert_eq!(s.words, ["poe"]);
    assert_eq!(s.cword, 1);
}

#[test]
fn a_lone_comment_parses_to_nothing_yet_keeps_a_word_to_complete() {
    // POSIX splitting drops a comment; the cursor still sits on a (now empty) word.
    let s = split_line("#x", 2);
    assert_eq!(s.words, [""]);
    assert_eq!(s.cword, 0);
    assert_eq!(s.prefix, "");
}

#[test]
fn closing_the_open_double_quote_keeps_an_inner_single_quote() {
    let s = split_line("poe \"a 'b", 9);
    assert_eq!(s.words, ["poe", "a 'b"]);
    assert_eq!(s.cword, 1);
    assert_eq!(s.prefix, "a 'b");
}

#[test]
fn text_right_of_the_cursor_is_ignored() {
    let whole = split_line("poe bu \"open quote", 6);
    let left = split_line("poe bu", 6);
    assert_eq!((whole.words, whole.cword, whole.prefix), (left.words, left.cword, left.prefix));
}

#[test]
fn split_words_takes_the_first_answer_that_parsed() {
    let w = |v: &[&str]| Some(v.iter().map(|s| s.to_string()).collect::<Vec<_>>());
    let s = split_words("poe \"a", None, w(&["poe", "a"]), w(&["never"]));
    assert_eq!((s.words, s.cword, s.prefix), (vec!["poe".to_string(), "a".to_string()], 1, "a".to_string()));
    let s = split_words("poe x ", None, None, None);
    assert_eq!((s.words, s.cword, s.prefix), (vec!["poe".to_string(), "x".to_string()], 2, String::new()));
    let s = split_words("#", w(&[]), None, None);
    assert_eq!((s.words, s.cword, s.prefix), (vec![String::new()], 0, String::new()));
}
