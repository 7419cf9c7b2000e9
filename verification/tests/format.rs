use devkit_poe_complete::format::{describe_task_args, format_help, list_tasks};
use devkit_poe_complete::resolve::{Task, TaskArg};

fn arg(name: &str, options: &[&str], kind: &str, help: &str, choices: &[&str]) -> TaskArg {
    TaskArg {
        name: name.into(),
        options: options.iter().map(|s| s.to_string()).collect(),
        kind: kind.into(),
        help: help.into(),
        choices: choices.iter().map(|s| s.to_string()).collect(),
    }
}

#[test]
fn list_tasks_is_one_space_separated_line() {
    let tasks = vec![Task { name: "a".into(), args: vec![] }, Task { name: "b-c".into(), args: vec![] }];
    assert_eq!(list_tasks(&tasks), "a b-c\n");
    assert_eq!(list_tasks(&[]), "\n");
}

#[test]
fn describe_task_args_uses_poes_tab_separated_format() {
    let task = Task {
        name: "t".into(),
        args: vec![
            arg("greeting", &["--greeting", "-g"], "string", "The greeting to use", &[]),
            arg("verbose", &["--verbose", "-v"], "boolean", "", &[]),
            arg("flavor", &["--flavor"], "string", "Flavor", &["vanilla", "choc chip"]),
            arg("name", &["name"], "positional", "The name", &[]),
        ],
    };
    let out = describe_task_args(&task);
    let lines: Vec<&str> = out.lines().collect();
    assert_eq!(lines[0], "--greeting,-g\tstring\tThe greeting to use\t_");
    assert_eq!(lines[1], "--verbose,-v\tboolean\t \t_");
    assert_eq!(lines[2], "--flavor\tstring\tFlavor\tvanilla 'choc chip'");
    assert_eq!(lines[3], "name\tpositional\tThe name\t_");
    assert_eq!(lines.len(), 4);
}

#[test]
fn help_is_first_line_only_truncated_and_escaped() {
    let long = "x".repeat(70);
    let task = Task {
        name: "t".into(),
        args: vec![
            arg("a", &["--a"], "string", "first line\nsecond line", &[]),
            arg("b", &["--b"], "string", &long, &[]),
            arg("c", &["--c"], "string", "path: C:\\x\tdone", &[]),
        ],
    };
    let out = describe_task_args(&task);
    let help: Vec<&str> = out.lines().map(|l| l.split('\t').nth(2).unwrap()).collect();
    assert_eq!(help[0], "first line");
    assert_eq!(help[1], format!("{}...", "x".repeat(57)));
    assert_eq!(help[2], "path\\: C\\:\\\\x done");
}

#[test]
fn choices_with_quotes_use_shell_quote_splicing() {
    let task = Task { name: "t".into(), args: vec![arg("q", &["--q"], "string", "", &["it's", "plain", "a$b"])] };
    let out = describe_task_args(&task);
    let choices = out.lines().next().unwrap().split('\t').nth(3).unwrap();
    assert_eq!(choices, "'it'\\''s' plain 'a$b'");
}

#[test]
fn a_task_with_no_args_describes_as_nothing() {
    assert_eq!(describe_task_args(&Task { name: "t".into(), args: vec![] }), "");
}

// ---- further cases -------------------------------------------------------------------------

#[test]
fn help_is_trimmed_and_a_crlf_ending_dropped() {
    let task = Task { name: "t".into(), args: vec![arg("a", &["--a"], "string", "  first  \r\nsecond", &[])] };
    let out = describe_task_args(&task);
    assert_eq!(out, "--a\tstring\tfirst\t_\n");
}

#[test]
fn a_blank_first_line_is_a_single_space() {
    let task = Task { name: "t".into(), args: vec![arg("a", &["--a"], "string", "\nsecond", &[])] };
    assert_eq!(describe_task_args(&task), "--a\tstring\t \t_\n");
}

#[test]
fn truncation_trims_before_the_ellipsis() {
    let help = format!("{}   {}", "y".repeat(54), "z".repeat(20));
    let task = Task { name: "t".into(), args: vec![arg("a", &["--a"], "string", &help, &[])] };
    let out = describe_task_args(&task);
    assert_eq!(out.split('\t').nth(2).unwrap(), format!("{}...", "y".repeat(54)));
}

#[test]
fn exactly_sixty_characters_are_kept_whole() {
    let help = "w".repeat(60);
    let task = Task { name: "t".into(), args: vec![arg("a", &["--a"], "string", &help, &[])] };
    let out = describe_task_args(&task);
    assert_eq!(out.split('\t').nth(2).unwrap(), help);
}

#[test]
fn empty_choices_are_dropped_and_all_empty_means_underscore() {
    let task = Task { name: "t".into(), args: vec![arg("a", &["--a"], "string", "h", &["", "x", ""]), arg("b", &["--b"], "string", "h", &[""])] };
    let out = describe_task_args(&task);
    let lines: Vec<&str> = out.lines().collect();
    assert_eq!(lines[0], "--a\tstring\th\tx");
    assert_eq!(lines[1], "--b\tstring\th\t_");
}

#[test]
fn every_special_character_forces_quoting() {
    for c in [' ', '\t', '\n', '"', '\\', '$', '`'] {
        let v = format!("a{c}b");
        let task = Task { name: "t".into(), args: vec![arg("a", &["--a"], "string", "h", &[&v])] };
        let out = describe_task_args(&task);
        assert!(out.ends_with(&format!("\t'{v}'\n")), "{out:?}");
    }
}

#[test]
fn the_help_column_never_holds_a_tab_or_newline() {
    for help in ["a\tb", "\t\tlead\nsecond", "x\r\ny", "", "\n", &"w\t".repeat(40)] {
        let t = Task { name: "t".into(), args: vec![arg("a", &["--a"], "string", help, &[])] };
        let out = describe_task_args(&t);
        let line = out.strip_suffix('\n').expect("newline-terminated");
        assert!(!line.contains('\n'), "{out:?}");
        assert_eq!(line.split('\t').count(), 4, "{out:?}");
        assert!(!line.split('\t').nth(2).unwrap().is_empty(), "{out:?}");
    }
}

#[test]
fn format_help_keeps_the_first_line_only() {
    assert_eq!(format_help("first line\nsecond line"), "first line");
    assert_eq!(format_help("\nsecond"), " ");
    assert_eq!(format_help("a:b\\c\td"), "a\\:b\\\\c d");
}
