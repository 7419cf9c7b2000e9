//! Resolving a project's task table: its own tasks, `include`d files and `include_script`
//! output. The project lives in memory here: the driver below asks the resolver for each
//! include file and answers from a map of paths to text, the way the binary answers from
//! the disk.

use std::collections::HashMap;

use devkit_poe_complete::json::Json;
use devkit_poe_complete::process::{CapturedOutput, RecordingRunner};
use devkit_poe_complete::resolve::{Resolved, Task};
use devkit_poe_complete::resolver::{
    Resolver, embedded_json, python_candidates, python_for, script_call, script_json,
};

const ROOT: &str = "/proj";

// ---- the in-memory project ---------------------------------------------------------------

/// Resolve the project whose files are `files` (paths relative to the root), running
/// `include_script` through `runner`. `None` when `pyproject.toml` is missing or malformed.
fn resolve_files(files: &[(&str, &str)], runner: &mut RecordingRunner) -> Option<Resolved> {
    let disk: HashMap<String, String> =
        files.iter().map(|(p, t)| (format!("{ROOT}/{p}"), t.to_string())).collect();
    let pyproject = format!("{ROOT}/pyproject.toml");
    let mut resolver = Resolver::start_text(ROOT, &pyproject, disk.get(&pyproject)?)?;
    while let Some(path) = resolver.next_include() {
        let key = path.clone();
        let text = if resolver.is_open(&key) { None } else { disk.get(&path).map(String::as_str) };
        resolver.deliver_text(&key, text);
    }
    let src = format!("{ROOT}/src");
    let src_dir = disk.keys().any(|k| k.starts_with(&format!("{src}/"))).then_some(src);
    let candidates = python_candidates(ROOT);
    let present: Vec<bool> = candidates.iter().map(|c| disk.contains_key(c)).collect();
    let python = python_for(&candidates, &present);
    for item in resolver.take_scripts() {
        let Some(call) = script_call(ROOT, &item, src_dir.as_deref(), &python) else {
            continue;
        };
        let out = runner.run_capture(&call.program, &call.args, &call.cwd);
        if let Some(json) = script_json(&out) {
            resolver.add_script_output(&json);
        }
    }
    Some(resolver.finish())
}

fn resolve(files: &[(&str, &str)], runner: &mut RecordingRunner) -> Resolved {
    resolve_files(files, runner).expect("pyproject.toml resolves")
}

fn names(tasks: &[Task]) -> Vec<&str> {
    tasks.iter().map(|t| t.name.as_str()).collect()
}

#[test]
fn tasks_come_from_tool_poe_tasks_in_order_without_hidden_ones() {
    let files = [(
        "pyproject.toml",
        "[tool.poe.tasks]\ntest = \"pytest\"\n_hidden = \"x\"\nlint.cmd = \"ruff check\"\n",
    )];
    let r = resolve(&files, &mut RecordingRunner::new(0));
    assert_eq!(names(&r.tasks), ["test", "lint"]);
}

// ---- include (TOML) ----------------------------------------------------------------------

#[test]
fn included_files_add_tasks_after_the_projects_own_and_never_override() {
    let files = [
        ("pyproject.toml", "[tool.poe]\ninclude = \"extra.toml\"\n[tool.poe.tasks]\nbuild = \"x\"\n"),
        ("extra.toml", "[tool.poe.tasks]\nbuild = \"OVERRIDE\"\ndeploy = \"y\"\n"),
    ];
    let r = resolve(&files, &mut RecordingRunner::new(0));
    assert_eq!(names(&r.tasks), ["build", "deploy"]);
    assert!(r.sources.iter().any(|p| p.ends_with("extra.toml")), "{:?}", r.sources);
}

#[test]
fn include_items_may_be_a_list_of_strings_or_tables_resolved_against_the_including_file() {
    let files = [
        ("pyproject.toml", "[tool.poe]\ninclude = [\"conf/a.toml\", { path = \"conf/b.toml\" }]\n"),
        ("conf/a.toml", "[tool.poe]\ninclude = \"nested.toml\"\n[tool.poe.tasks]\na = \"1\"\n"),
        ("conf/nested.toml", "[tool.poe.tasks]\nnested = \"1\"\n"),
        ("conf/b.toml", "[tool.poe.tasks]\nb = \"1\"\n"),
    ];
    let r = resolve(&files, &mut RecordingRunner::new(0));
    assert_eq!(names(&r.tasks), ["a", "nested", "b"]);
}

#[test]
fn cyclic_includes_terminate_and_recursive_false_is_honoured() {
    let files = [
        ("pyproject.toml", "[tool.poe]\ninclude = \"a.toml\"\n"),
        ("a.toml", "[tool.poe]\ninclude = \"b.toml\"\n[tool.poe.tasks]\na = \"1\"\n"),
        ("b.toml", "[tool.poe]\ninclude = \"a.toml\"\n[tool.poe.tasks]\nb = \"1\"\n"),
    ];
    let r = resolve(&files, &mut RecordingRunner::new(0));
    assert_eq!(names(&r.tasks), ["a", "b"]);

    let files = [
        ("pyproject.toml", "[tool.poe]\ninclude = { path = \"a.toml\", recursive = false }\n"),
        ("a.toml", "[tool.poe]\ninclude = \"b.toml\"\n[tool.poe.tasks]\na = \"1\"\n"),
        ("b.toml", "[tool.poe.tasks]\nb = \"1\"\n"),
    ];
    let r = resolve(&files, &mut RecordingRunner::new(0));
    assert_eq!(names(&r.tasks), ["a"]);
}

#[test]
fn a_missing_include_is_skipped_not_fatal() {
    let files = [(
        "pyproject.toml",
        "[tool.poe]\ninclude = \"nope.toml\"\n[tool.poe.tasks]\nx = \"1\"\n",
    )];
    assert_eq!(names(&resolve(&files, &mut RecordingRunner::new(0)).tasks), ["x"]);
}

// ---- include_script ----------------------------------------------------------------------

const SCRIPT_CFG: &str = "[tool.poe]
include_script = [{ script = \"mypkg:tasks\", executor = { type = \"uv\" } }]
[tool.poe.tasks]
local = \"1\"
";

fn scripted(out: &str) -> RecordingRunner {
    let mut r = RecordingRunner::new(0);
    r.script("python", &["-c"], 0, out);
    r
}

#[test]
fn include_script_runs_poes_one_liner_against_the_venv_python_when_present() {
    let files = [("pyproject.toml", SCRIPT_CFG), (".venv/Scripts/python.exe", "")];
    let exe = format!("{ROOT}/.venv/Scripts/python.exe");
    let mut runner = RecordingRunner::new(0);
    runner.script(&exe, &["-c"], 0, r#"{"tasks": {"gen": {"cmd": "x"}}}"#);
    let r = resolve(&files, &mut runner);
    assert_eq!(names(&r.tasks), ["local", "gen"]);
    let py = runner
        .calls
        .iter()
        .find(|c| c.args.first().map(String::as_str) == Some("-c"))
        .expect("python -c call");
    assert!(py.program.replace('\\', "/").ends_with(".venv/Scripts/python.exe"), "{}", py.program);
    let script = &py.args[1];
    assert!(script.contains("_i('mypkg')") && script.contains("json.dumps(_m.tasks())"), "{script}");
    assert_eq!(py.cwd, ROOT);
}

#[test]
fn include_script_output_shapes_are_all_normalized() {
    for out in [
        r#"{"tool": {"poe": {"tasks": {"gen": "x"}}}}"#,
        r#"{"tool.poe": {"tasks": {"gen": "x"}}}"#,
        r#"{"tasks": {"gen": "x"}, "config_path": "C:/x/mypkg/__init__.py"}"#,
        // poe accepts a JSON string containing JSON, too.
        r#""{\"tasks\": {\"gen\": \"x\"}}""#,
    ] {
        let r = resolve(&[("pyproject.toml", SCRIPT_CFG)], &mut scripted(out));
        assert_eq!(names(&r.tasks), ["local", "gen"], "for {out}");
    }
}

#[test]
fn include_script_config_path_is_a_cache_source() {
    let out = r#"{"tasks": {}, "config_path": "C:/x/mypkg/__init__.py"}"#;
    let r = resolve(&[("pyproject.toml", SCRIPT_CFG)], &mut scripted(out));
    assert!(r.sources.iter().any(|p| p.ends_with("__init__.py")), "{:?}", r.sources);
}

#[test]
fn include_script_failures_fall_back_to_the_toml_tasks() {
    let files = [("pyproject.toml", SCRIPT_CFG)];
    let mut failing = RecordingRunner::new(1);
    assert_eq!(names(&resolve(&files, &mut failing).tasks), ["local"]);
    assert_eq!(names(&resolve(&files, &mut scripted("not json")).tasks), ["local"]);
}

// ---- args ----------------------------------------------------------------------------------

#[test]
fn task_args_are_normalized_like_poes_argspec() {
    let files = [(
        "pyproject.toml",
        "[tool.poe.tasks.t]
cmd = \"x\"
args = [
  \"plain\",
  { name = \"_priv\", options = [\"--priv\", \"-p\"], type = \"boolean\", help = \"Line one\\nline two\" },
  { name = \"flavor\", choices = [\"vanilla\", \"choc chip\"] },
  { name = \"_who\", positional = true },
  { name = \"where\", positional = \"WHERE\" },
]
[tool.poe.tasks.d]
cmd = \"y\"
[tool.poe.tasks.d.args]
verbose = { type = \"boolean\" }
",
    )];
    let r = resolve(&files, &mut RecordingRunner::new(0));
    let t = &r.tasks[0].args;
    assert_eq!(
        (t[0].name.as_str(), &t[0].options[..], t[0].kind.as_str()),
        ("plain", &["--plain".to_string()][..], "string")
    );
    assert_eq!(
        (&t[1].options[..], t[1].kind.as_str(), t[1].help.as_str()),
        (&["--priv".to_string(), "-p".to_string()][..], "boolean", "Line one\nline two")
    );
    assert_eq!(t[2].choices, ["vanilla", "choc chip"]);
    assert_eq!(
        (&t[3].options[..], t[3].kind.as_str()),
        (&["priv".replace("priv", "who")][..], "positional")
    );
    assert_eq!(&t[4].options[..], &["WHERE".to_string()][..]);
    let d = &r.tasks[1].args;
    assert_eq!(
        (d[0].name.as_str(), &d[0].options[..], d[0].kind.as_str()),
        ("verbose", &["--verbose".to_string()][..], "boolean")
    );
}

// ---- the walk itself -----------------------------------------------------------------------

#[test]
fn a_malformed_pyproject_does_not_resolve() {
    assert!(resolve_files(&[("pyproject.toml", "[tool.poe")], &mut RecordingRunner::new(0)).is_none());
    assert!(resolve_files(&[], &mut RecordingRunner::new(0)).is_none());
}

#[test]
fn a_project_without_tool_poe_has_no_tasks_and_one_source() {
    let r = resolve(&[("pyproject.toml", "[project]\nname = \"x\"\n")], &mut RecordingRunner::new(0));
    assert!(r.tasks.is_empty());
    assert_eq!(r.sources, [format!("{ROOT}/pyproject.toml")]);
}

#[test]
fn sources_list_every_file_read_in_order() {
    let files = [
        ("pyproject.toml", "[tool.poe]\ninclude = [\"a.toml\", \"missing.toml\", \"b.toml\"]\n"),
        ("a.toml", "[tool.poe.tasks]\na = \"1\"\n"),
        ("b.toml", "[tool.poe.tasks]\nb = \"1\"\n"),
    ];
    let r = resolve(&files, &mut RecordingRunner::new(0));
    assert_eq!(
        r.sources,
        [format!("{ROOT}/pyproject.toml"), format!("{ROOT}/a.toml"), format!("{ROOT}/b.toml")]
    );
}

#[test]
fn path_variables_expand_to_the_root_and_the_including_directory() {
    let files = [
        ("pyproject.toml", "[tool.poe]\ninclude = \"${POE_ROOT}/conf/a.toml\"\n"),
        ("conf/a.toml", "[tool.poe]\ninclude = \"${POE_CONF_DIR}/b.toml\"\n[tool.poe.tasks]\na = \"1\"\n"),
        ("conf/b.toml", "[tool.poe.tasks]\nb = \"1\"\n"),
    ];
    let r = resolve(&files, &mut RecordingRunner::new(0));
    assert_eq!(names(&r.tasks), ["a", "b"]);
}

#[test]
fn a_file_included_twice_from_siblings_is_read_both_times() {
    // Only the chain of ancestors guards against re-entry, as in poe: a diamond is fine.
    let files = [
        ("pyproject.toml", "[tool.poe]\ninclude = [\"a.toml\", \"b.toml\"]\n"),
        ("a.toml", "[tool.poe]\ninclude = \"c.toml\"\n[tool.poe.tasks]\na = \"1\"\n"),
        ("b.toml", "[tool.poe]\ninclude = \"c.toml\"\n[tool.poe.tasks]\nb = \"1\"\n"),
        ("c.toml", "[tool.poe.tasks]\nc = \"1\"\n"),
    ];
    let r = resolve(&files, &mut RecordingRunner::new(0));
    assert_eq!(names(&r.tasks), ["a", "c", "b"]);
    assert_eq!(r.sources.iter().filter(|p| p.ends_with("c.toml")).count(), 2);
}

#[test]
fn an_include_entry_without_a_path_is_passed_over() {
    let files = [
        ("pyproject.toml", "[tool.poe]\ninclude = [{ cwd = \"x\" }, 7, \"a.toml\"]\n"),
        ("a.toml", "[tool.poe.tasks]\na = \"1\"\n"),
    ];
    let r = resolve(&files, &mut RecordingRunner::new(0));
    assert_eq!(names(&r.tasks), ["a"]);
}

#[test]
fn the_walk_hands_out_nothing_once_it_is_over() {
    let mut r = Resolver::start_text(ROOT, "/proj/pyproject.toml", "[tool.poe]\ninclude = \"a.toml\"\n").unwrap();
    let first = r.next_include().expect("one include");
    assert_eq!(first, "/proj/a.toml");
    r.deliver_text(&first, None);
    assert_eq!(r.next_include(), None);
    assert_eq!(r.next_include(), None);
}

#[test]
fn a_file_on_the_chain_is_reported_open_until_its_includes_are_done() {
    let mut r = Resolver::start_text(ROOT, "/proj/pyproject.toml", "[tool.poe]\ninclude = \"a.toml\"\n").unwrap();
    let a = r.next_include().unwrap();
    assert!(!r.is_open("A"));
    r.deliver_text("A", Some("[tool.poe]\ninclude = \"b.toml\"\n"));
    assert!(r.is_open("A"));
    let b = r.next_include().unwrap();
    assert!(b.ends_with("b.toml"));
    r.deliver_text("B", None);
    assert!(r.is_open("A"));
    assert_eq!(r.next_include(), None);
    assert!(!r.is_open("A"));
    assert!(a.ends_with("a.toml"));
}

#[test]
fn script_entries_without_a_colon_or_script_run_nothing() {
    let cfg = "[tool.poe]\ninclude_script = [\"nocolon\", { cwd = \"x\" }, \"pkg:make(1)\"]\n";
    let mut runner = scripted(r#"{"tasks": {"made": "x"}}"#);
    let r = resolve(&[("pyproject.toml", cfg), ("src/pkg/__init__.py", "")], &mut runner);
    assert_eq!(names(&r.tasks), ["made"]);
    assert_eq!(runner.calls.len(), 1);
    let script = &runner.calls[0].args[1];
    assert!(script.contains("json.dumps(_m.make(1))"), "{script}");
    assert!(script.contains("sys.path.append('/proj/src');"), "{script}");
}

#[test]
fn a_script_cwd_is_taken_under_the_root() {
    let cfg = "[tool.poe]\ninclude_script = { script = \"pkg:tasks\", cwd = \"sub\" }\n";
    let mut runner = scripted("{}");
    let _ = resolve(&[("pyproject.toml", cfg)], &mut runner);
    // A table on its own is not one of the accepted shapes of `include_script`.
    assert!(runner.calls.is_empty());

    let cfg = "[tool.poe]\ninclude_script = [{ script = \"pkg:tasks\", cwd = \"sub\" }]\n";
    let mut runner = scripted("{}");
    let _ = resolve(&[("pyproject.toml", cfg)], &mut runner);
    assert_eq!(runner.calls[0].cwd, format!("{ROOT}/sub"));
    assert_eq!(runner.calls[0].program, "python");
}

#[test]
fn the_posix_venv_python_is_used_when_the_windows_one_is_absent() {
    let files = [("pyproject.toml", SCRIPT_CFG), (".venv/bin/python", "")];
    let mut runner = RecordingRunner::new(1);
    let _ = resolve(&files, &mut runner);
    assert_eq!(runner.calls[0].program, format!("{ROOT}/.venv/bin/python"));
}

#[test]
fn script_output_is_trimmed_before_it_is_parsed() {
    let mut runner = scripted("\n  {\"tasks\": {\"gen\": \"x\"}}  \n");
    let r = resolve(&[("pyproject.toml", SCRIPT_CFG)], &mut runner);
    assert_eq!(names(&r.tasks), ["local", "gen"]);
}

#[test]
fn a_string_that_is_not_json_adds_nothing() {
    let mut runner = scripted(r#""not json inside""#);
    let r = resolve(&[("pyproject.toml", SCRIPT_CFG)], &mut runner);
    assert_eq!(names(&r.tasks), ["local"]);
}

#[test]
fn python_for_prefers_the_first_present_candidate() {
    let c = vec!["w".to_string(), "p".to_string()];
    assert_eq!(python_for(&c, &vec![true, true]), "w");
    assert_eq!(python_for(&c, &vec![false, true]), "p");
    assert_eq!(python_for(&c, &vec![false, false]), "python");
    assert_eq!(python_for(&c, &vec![]), "python");
}

#[test]
fn embedded_json_is_only_a_string() {
    assert_eq!(embedded_json(&Json::Str("{}".into())), Some("{}".to_string()));
    assert_eq!(embedded_json(&Json::Object(vec![])), None);
}

#[test]
fn an_answer_with_no_entry_awaiting_it_changes_nothing() {
    let mut r = Resolver::start_text(ROOT, "/proj/pyproject.toml", "[tool.poe.tasks]\nx = \"1\"\n").unwrap();
    r.deliver_text("/proj/extra.toml", Some("[tool.poe.tasks]\ny = \"1\"\n"));
    let out = r.finish();
    assert_eq!(names(&out.tasks), ["x"]);
    assert_eq!(out.sources, ["/proj/pyproject.toml"]);
}

#[test]
fn the_venv_interpreters_are_under_the_root() {
    assert_eq!(python_candidates("/p"), ["/p/.venv/Scripts/python.exe", "/p/.venv/bin/python"]);
}

#[test]
fn a_nested_include_resolves_against_its_own_file() {
    let mut r = Resolver::start_text(ROOT, "/proj/pyproject.toml", "[tool.poe]\ninclude = \"conf/a.toml\"\n").unwrap();
    let a = r.next_include().unwrap();
    assert_eq!(a, "/proj/conf/a.toml");
    r.deliver_text(&a, Some("[tool.poe]\ninclude = \"b.toml\"\n"));
    assert_eq!(r.next_include().unwrap(), "/proj/conf/b.toml");
}

#[test]
fn script_json_reads_a_successful_scripts_output_only() {
    let out = |code: i32, stdout: &str| CapturedOutput { code: Some(code), stdout: stdout.into(), stderr: String::new() };
    assert!(matches!(script_json(&out(0, " {\"a\": 1.5, \"b\": [true, null]} ")), Some(Json::Object(p)) if p.len() == 2));
    assert!(matches!(script_json(&out(0, "\"[1]\"")), Some(Json::Array(a)) if a.len() == 1));
    assert!(script_json(&out(1, "{}")).is_none());
    assert!(script_json(&out(0, "not json")).is_none());
    assert!(script_json(&out(0, "\"not json inside\"")).is_none());
    assert!(matches!(script_json(&out(0, "\"plain\"")), None));
}

#[test]
fn toml_numbers_floats_and_dates_become_text() {
    let files = [(
        "pyproject.toml",
        "[tool.poe.tasks.t]\ncmd = \"x\"\nargs = [{ name = \"n\", choices = [1, 2.5, 1979-05-27] }]\n",
    )];
    let r = resolve(&files, &mut RecordingRunner::new(0));
    assert_eq!(r.tasks[0].args[0].choices, ["1", "2.5", "1979-05-27"]);
}
