//! Scanning a poe command line for its global options, target directory and task.

use devkit_poe_complete::parse::{GLOBAL_OPTIONS, OPTIONS_WITH_VALUES, exclusions, parse, split_inline};

/// Build owned words from a display line.
fn w(line: &str) -> Vec<String> {
    line.split(' ').filter(|s| !s.is_empty()).map(str::to_string).collect()
}

#[test]
fn finds_the_task_as_the_first_non_option_word() {
    let p = parse(&w("poe build --release"), 2);
    assert_eq!(p.task.as_deref(), Some("build"));
    assert_eq!(p.task_position, Some(1));
}

#[test]
fn no_task_yet_when_only_options_have_been_typed() {
    let p = parse(&w("poe --verbose"), 2);
    assert_eq!(p.task, None);
    assert_eq!(p.task_position, None);
}

#[test]
fn a_global_options_value_is_not_mistaken_for_the_task() {
    // "uv" is the value of -e, not a task name.
    let p = parse(&w("poe -e uv build"), 3);
    assert_eq!(p.task.as_deref(), Some("build"));
    assert_eq!(p.task_position, Some(3));
}

#[test]
fn an_inline_equals_option_does_not_swallow_the_next_word() {
    let p = parse(&w("poe -e=uv build"), 2);
    assert_eq!(p.task.as_deref(), Some("build"));
    assert_eq!(p.task_position, Some(2));
}

#[test]
fn extracts_target_dir_from_a_separate_argument() {
    let p = parse(&w("poe -C ../other build"), 3);
    assert_eq!(p.target_dir.as_deref(), Some("../other"));
    assert_eq!(p.task.as_deref(), Some("build"));
    assert_eq!(p.task_position, Some(3));
}

#[test]
fn extracts_target_dir_from_inline_equals() {
    let p = parse(&w("poe --directory=../other build"), 2);
    assert_eq!(p.target_dir.as_deref(), Some("../other"));
    assert_eq!(p.task_position, Some(2));
}

#[test]
fn accepts_the_root_spelling_for_target_dir() {
    let p = parse(&w("poe --root ../other build"), 3);
    assert_eq!(p.target_dir.as_deref(), Some("../other"));
}

#[test]
fn a_dangling_dash_c_with_no_value_yields_no_target_dir() {
    let p = parse(&w("poe -C"), 2);
    assert_eq!(p.target_dir, None);
    assert_eq!(p.task, None);
}

#[test]
fn options_after_the_task_do_not_set_the_target_dir() {
    let p = parse(&w("poe build -C ../other"), 4);
    assert_eq!(p.target_dir, None);
    assert_eq!(p.task.as_deref(), Some("build"));
}

#[test]
fn detects_the_pass_through_separator_before_the_cursor() {
    let p = parse(&w("poe run -- somefile"), 3);
    assert!(p.after_separator);
}

#[test]
fn a_separator_after_the_cursor_does_not_count() {
    let p = parse(&w("poe run x -- y"), 2);
    assert!(!p.after_separator);
}

#[test]
fn a_separator_before_any_task_is_not_a_pass_through() {
    let p = parse(&w("poe --"), 2);
    assert!(!p.after_separator);
}

#[test]
fn global_options_match_poes_own_list() {
    assert_eq!(GLOBAL_OPTIONS.len(), 17);
    assert!(GLOBAL_OPTIONS.contains(&"--no-ansi"));
    assert!(GLOBAL_OPTIONS.contains(&"--executor-opt"));
}

#[test]
fn options_with_values_match_poes_own_list() {
    assert_eq!(OPTIONS_WITH_VALUES.len(), 8);
    assert!(OPTIONS_WITH_VALUES.contains(&"--executor"));
    assert!(!OPTIONS_WITH_VALUES.contains(&"--verbose"));
}

#[test]
fn verbose_and_quiet_suppress_each_other() {
    assert!(exclusions("-v").contains(&"--quiet"));
    assert!(exclusions("--quiet").contains(&"-v"));
    assert!(exclusions("--executor-opt").is_empty());
}

// ---- further cases -------------------------------------------------------------------------

#[test]
fn split_inline_cuts_at_the_first_equals_only() {
    assert_eq!(split_inline("-C=a=b"), ("-C", Some("a=b")));
    assert_eq!(split_inline("--mode"), ("--mode", None));
    assert_eq!(split_inline("--x="), ("--x", Some("")));
}

#[test]
fn an_option_value_at_the_end_of_the_line_is_not_skipped() {
    // `-e` with nothing after it does not consume anything; no task yet.
    let p = parse(&w("poe -e"), 2);
    assert_eq!(p.task, None);
}

#[test]
fn the_separator_is_neither_option_nor_task() {
    let p = parse(&w("poe -- build"), 2);
    assert_eq!(p.task.as_deref(), Some("build"));
    assert_eq!(p.task_position, Some(2));
}

#[test]
fn every_exclusion_family_is_listed() {
    assert_eq!(exclusions("-h"), vec!["--help", "-h"]);
    assert_eq!(exclusions("--no-ansi"), vec!["--ansi", "--no-ansi"]);
    assert_eq!(exclusions("-C"), vec!["--directory", "-C"]);
    assert!(exclusions("build").is_empty());
}

#[test]
fn exclusion_is_mutual_for_every_global_option() {
    for a in GLOBAL_OPTIONS {
        for b in exclusions(a) {
            assert!(exclusions(b).contains(&a), "{a} excludes {b} but not the other way round");
        }
    }
}

#[test]
fn only_non_repeatable_globals_exclude_and_only_globals_are_excluded() {
    for a in GLOBAL_OPTIONS {
        let ex = exclusions(a);
        assert_eq!(ex.is_empty(), a == "-X" || a == "--executor-opt", "{a}");
        for b in ex {
            assert!(GLOBAL_OPTIONS.contains(&b), "{b}");
        }
    }
    assert!(exclusions("--root").is_empty());
    assert_eq!(exclusions("-v"), exclusions("--verbose"));
    assert_eq!(exclusions("--ansi"), exclusions("--no-ansi"));
}
