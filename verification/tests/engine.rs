//! Engine tests: a completion request and a task table in, a directive out.

use devkit_poe_complete::engine::{Directive, Item, ItemKind, Request, Shell, complete};
use devkit_poe_complete::resolve::{Resolved, Task, TaskArg};

// ---- fixtures ----------------------------------------------------------------------------

/// A table declaring `tasks` as trivial commands, in the order given.
fn fixture_project(tasks: &[&str]) -> Resolved {
    Resolved {
        tasks: tasks.iter().map(|t| Task { name: t.to_string(), args: vec![] }).collect(),
        sources: vec!["pyproject.toml".to_string()],
    }
}

/// A request completing a fresh word straight after `poe`.
fn base() -> Request {
    Request {
        shell: Shell::Bash,
        words: vec!["poe".to_string()],
        cword: 1,
        prefix: String::new(),
        root: ".".to_string(),
    }
}

fn run(req: &Request, table: &Resolved) -> Directive {
    complete(req, Some(table))
}

fn items(d: Directive) -> Vec<Item> {
    match d {
        Directive::Items(items) => items,
        other => panic!("expected items, got {other:?}"),
    }
}

fn values(d: Directive) -> Vec<String> {
    items(d).into_iter().map(|i| i.value).collect()
}

fn w(line: &str) -> Vec<String> {
    line.split(' ').filter(|s| !s.is_empty()).map(str::to_string).collect()
}

fn values_of(items: &[Item]) -> Vec<&str> {
    items.iter().map(|i| i.value.as_str()).collect()
}

fn arg(name: &str, options: &[&str], kind: &str, help: &str, choices: &[&str]) -> TaskArg {
    TaskArg {
        name: name.into(),
        options: options.iter().map(|s| s.to_string()).collect(),
        kind: kind.into(),
        help: help.into(),
        choices: choices.iter().map(|s| s.to_string()).collect(),
    }
}

/// One option-bearing task and one positional-bearing task.
fn fixture_args() -> Resolved {
    Resolved {
        tasks: vec![
            Task {
                name: "build".into(),
                args: vec![
                    arg("mode", &["-m", "--mode"], "string", "Build profile", &["fast", "slow"]),
                    arg("force", &["--force"], "boolean", "Skip checks", &[]),
                    arg("out", &["--out"], "string", "Output path", &[]),
                ],
            },
            Task {
                name: "deploy".into(),
                args: vec![
                    arg("target", &["target"], "positional", "", &["alpha", "beta"]),
                    arg("env", &["env"], "positional", "", &["dev", "prod"]),
                    arg("mode", &["--mode"], "string", "", &["fast", "slow"]),
                ],
            },
        ],
        sources: vec!["pyproject.toml".to_string()],
    }
}

// ---- task names --------------------------------------------------------------------------

#[test]
fn completes_task_names_after_the_command() {
    let project = fixture_project(&["build", "test"]);
    let got = items(run(&base(), &project));
    assert_eq!(got.iter().map(|i| i.value.as_str()).collect::<Vec<_>>(), ["build", "test"]);
    assert!(matches!(got[0].kind, ItemKind::Command));
}

#[test]
fn filters_task_names_by_prefix() {
    let project = fixture_project(&["build", "bench", "test"]);
    let req = Request { prefix: "b".to_string(), ..base() };
    assert_eq!(values(run(&req, &project)), ["build", "bench"]);
}

#[test]
fn an_unreadable_project_yields_no_completions_rather_than_an_error() {
    let req = base();
    assert_eq!(values(complete(&req, None)), Vec::<String>::new());
}

// ---- global options ----------------------------------------------------------------------

#[test]
fn completes_global_options_before_the_task() {
    let p = fixture_project(&["build"]);
    let req = Request { words: w("poe -"), cword: 1, prefix: "-".to_string(), ..base() };
    let got = items(run(&req, &p));
    assert!(got.iter().any(|i| i.value == "--verbose"), "{:?}", values_of(&got));
    assert!(matches!(got[0].kind, ItemKind::Param));
}

#[test]
fn omits_globals_excluded_by_one_already_typed() {
    let p = fixture_project(&["build"]);
    let req = Request { words: w("poe --verbose -"), cword: 2, prefix: "-".to_string(), ..base() };
    let got = values(run(&req, &p));
    assert!(!got.iter().any(|v| v == "--quiet" || v == "-q"), "{got:?}");
    assert!(got.iter().any(|v| v == "--dry-run"), "{got:?}");
}

#[test]
fn does_not_offer_globals_once_the_task_is_typed() {
    let p = fixture_project(&["build"]);
    let req = Request { words: w("poe build -"), cword: 2, prefix: "-".to_string(), ..base() };
    assert!(!values(run(&req, &p)).iter().any(|v| v == "--verbose"));
}

// ---- directory and executor values -------------------------------------------------------

#[test]
fn requests_directory_completion_after_dash_c() {
    let p = fixture_project(&["build"]);
    let req = Request { words: w("poe -C"), cword: 2, prefix: String::new(), ..base() };
    assert_eq!(run(&req, &p), Directive::Dirs);
}

#[test]
fn requests_directory_completion_for_inline_dash_c() {
    let p = fixture_project(&["build"]);
    let req = Request { words: w("poe -C=sr"), cword: 1, prefix: "-C=sr".to_string(), ..base() };
    assert_eq!(run(&req, &p), Directive::Dirs);
}

#[test]
fn requests_directory_completion_for_the_long_spelling() {
    let p = fixture_project(&["build"]);
    let req = Request { words: w("poe --directory"), cword: 2, prefix: String::new(), ..base() };
    assert_eq!(run(&req, &p), Directive::Dirs);
}

#[test]
fn completes_executor_choices() {
    let p = fixture_project(&["build"]);
    let req = Request { words: w("poe -e"), cword: 2, prefix: String::new(), ..base() };
    assert_eq!(values(run(&req, &p)), ["auto", "poetry", "simple", "uv", "virtualenv"]);
}

#[test]
fn completes_inline_executor_choices_with_the_whole_word() {
    let p = fixture_project(&["build"]);
    let req = Request {
        words: w("poe --executor=u"),
        cword: 1,
        prefix: "--executor=u".to_string(),
        ..base()
    };
    let got = items(run(&req, &p));
    assert_eq!(got[0].value, "--executor=uv");
    assert_eq!(got[0].display, "uv");
    assert!(matches!(got[0].kind, ItemKind::Value));
}

// ---- pass-through ------------------------------------------------------------------------

#[test]
fn offers_file_completion_after_the_separator() {
    let p = fixture_project(&["run"]);
    let req = Request { words: w("poe run --"), cword: 3, prefix: String::new(), ..base() };
    assert_eq!(run(&req, &p), Directive::Files);
}

// ---- task arguments ----------------------------------------------------------------------

#[test]
fn completes_a_tasks_own_options_with_help_as_tooltip() {
    let p = fixture_args();
    let req = Request { words: w("poe build -"), cword: 2, prefix: "-".to_string(), ..base() };
    let got = items(run(&req, &p));
    let mode = got.iter().find(|i| i.value == "--mode").expect("--mode offered");
    assert_eq!(mode.tooltip, "Build profile");
    assert!(matches!(mode.kind, ItemKind::Param));
}

#[test]
fn hides_every_spelling_of_an_already_used_option() {
    let p = fixture_args();
    let req = Request { words: w("poe build -m fast -"), cword: 4, prefix: "-".to_string(), ..base() };
    let got = values(run(&req, &p));
    assert!(!got.iter().any(|v| v == "--mode" || v == "-m"), "{got:?}");
    assert!(got.iter().any(|v| v == "--force"), "{got:?}");
}

#[test]
fn positionals_are_never_offered_as_option_names() {
    let p = fixture_args();
    let req = Request { words: w("poe deploy -"), cword: 2, prefix: "-".to_string(), ..base() };
    let got = values(run(&req, &p));
    assert!(!got.iter().any(|v| v == "target" || v == "env"), "{got:?}");
}

#[test]
fn completes_an_options_choices() {
    let p = fixture_args();
    let req = Request { words: w("poe build --mode"), cword: 3, prefix: String::new(), ..base() };
    let got = items(run(&req, &p));
    assert_eq!(got.iter().map(|i| i.value.as_str()).collect::<Vec<_>>(), ["fast", "slow"]);
    assert!(matches!(got[0].kind, ItemKind::Value));
}

#[test]
fn completes_inline_equals_choices_replacing_the_whole_word() {
    let p = fixture_args();
    let req = Request { words: w("poe build --mode=f"), cword: 2, prefix: "--mode=f".to_string(), ..base() };
    let got = items(run(&req, &p));
    assert_eq!(got[0].value, "--mode=fast");
    assert_eq!(got[0].display, "fast");
}

#[test]
fn a_boolean_flag_does_not_consume_the_next_word() {
    let p = fixture_args();
    let req = Request { words: w("poe build --force -"), cword: 3, prefix: "-".to_string(), ..base() };
    assert!(values(run(&req, &p)).iter().any(|v| v == "--mode"));
}

#[test]
fn falls_back_to_files_for_a_free_form_value() {
    let p = fixture_args();
    let req = Request { words: w("poe build --out"), cword: 3, prefix: String::new(), ..base() };
    assert_eq!(run(&req, &p), Directive::Files);
}

#[test]
fn completes_positional_choices_at_the_right_index() {
    let p = fixture_args();
    let req = Request { words: w("poe deploy alpha"), cword: 3, prefix: String::new(), ..base() };
    assert_eq!(values(run(&req, &p)), ["dev", "prod"]);
}

#[test]
fn completes_the_first_positional_before_any_are_given() {
    let p = fixture_args();
    let req = Request { words: w("poe deploy"), cword: 2, prefix: String::new(), ..base() };
    assert_eq!(values(run(&req, &p)), ["alpha", "beta"]);
}

#[test]
fn positional_index_skips_options_and_their_values() {
    let p = fixture_args();
    let req = Request {
        words: w("poe deploy --mode fast alpha"),
        cword: 5,
        prefix: String::new(),
        ..base()
    };
    assert_eq!(values(run(&req, &p)), ["dev", "prod"]);
}

#[test]
fn an_unknown_task_offers_nothing_rather_than_erroring() {
    let p = fixture_args();
    let req = Request { words: w("poe nosuchtask -"), cword: 2, prefix: "-".to_string(), ..base() };
    assert_eq!(values(run(&req, &p)), Vec::<String>::new());
}

#[test]
fn positionals_beyond_the_last_fall_back_to_files() {
    let p = fixture_args();
    let req = Request {
        words: w("poe deploy alpha dev extra"),
        cword: 4,
        prefix: String::new(),
        ..base()
    };
    assert_eq!(run(&req, &p), Directive::Files);
}

// ---- further cases -------------------------------------------------------------------------

#[test]
fn every_candidate_starts_with_the_prefix() {
    let p = fixture_args();
    for (line, cword, prefix) in [
        ("poe b", 1, "b"),
        ("poe --v", 1, "--v"),
        ("poe -e p", 2, "p"),
        ("poe --executor=s", 1, "--executor=s"),
        ("poe build --m", 2, "--m"),
        ("poe build --mode s", 3, "s"),
        ("poe build --mode=s", 2, "--mode=s"),
        ("poe deploy b", 2, "b"),
    ] {
        let req = Request { words: w(line), cword, prefix: prefix.to_string(), ..base() };
        for v in values(run(&req, &p)) {
            assert!(v.starts_with(prefix), "{line}: {v}");
        }
    }
}

#[test]
fn the_answer_does_not_depend_on_the_shell() {
    let p = fixture_args();
    let bash = Request { words: w("poe build -"), cword: 2, prefix: "-".to_string(), ..base() };
    let ps = Request { shell: Shell::PowerShell, ..bash.clone() };
    assert_eq!(run(&bash, &p), run(&ps, &p));
}

#[test]
fn task_items_carry_a_task_tooltip() {
    let p = fixture_project(&["lint"]);
    let got = items(run(&base(), &p));
    assert_eq!(got[0].tooltip, "Task: lint");
    assert_eq!(got[0].display, "lint");
}

#[test]
fn help_takes_a_task_name() {
    let p = fixture_project(&["build", "test"]);
    let req = Request { words: w("poe --help"), cword: 2, prefix: "t".to_string(), ..base() };
    assert_eq!(values(run(&req, &p)), ["test"]);
}

#[test]
fn executor_opt_values_are_free_form() {
    let p = fixture_project(&["build"]);
    let req = Request { words: w("poe -X"), cword: 2, prefix: String::new(), ..base() };
    assert_eq!(values(run(&req, &p)), Vec::<String>::new());
}

#[test]
fn an_unresolvable_project_offers_nothing_even_for_a_pending_option() {
    let req = Request { words: w("poe -C"), cword: 2, prefix: String::new(), ..base() };
    assert_eq!(complete(&req, None), Directive::Items(vec![]));
    let req = Request { words: w("poe -"), cword: 1, prefix: "-".to_string(), ..base() };
    assert_eq!(complete(&req, None), Directive::Items(vec![]));
}

#[test]
fn a_boolean_option_inline_offers_nothing() {
    let p = fixture_args();
    let req = Request { words: w("poe build --force=x"), cword: 2, prefix: "--force=x".to_string(), ..base() };
    assert_eq!(values(run(&req, &p)), Vec::<String>::new());
}

#[test]
fn a_positional_without_choices_falls_back_to_files() {
    let p = Resolved {
        tasks: vec![Task { name: "t".into(), args: vec![arg("path", &["path"], "positional", "", &[])] }],
        sources: vec![],
    };
    let req = Request { words: w("poe t"), cword: 2, prefix: String::new(), ..base() };
    assert_eq!(run(&req, &p), Directive::Files);
}
