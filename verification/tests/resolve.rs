//! The pieces of task resolution: argument normalization, task tables, include entries,
//! script output shapes and the include_script one-liner.

use devkit_poe_complete::json::Json;
use devkit_poe_complete::resolve::{
    Task, add_tasks, expand_include_path, include_items, include_path, include_recursive,
    include_script_items, normalize_args, normalize_script_output, poe_section, py_repr,
    script_source,
};

fn s(v: &str) -> Json {
    Json::Str(v.to_string())
}

fn obj(pairs: Vec<(&str, Json)>) -> Json {
    Json::Object(pairs.into_iter().map(|(k, v)| (k.to_string(), v)).collect())
}

fn names(tasks: &[Task]) -> Vec<&str> {
    tasks.iter().map(|t| t.name.as_str()).collect()
}

#[test]
fn an_args_table_is_keyed_by_name_and_numbers_become_choice_text() {
    let args = obj(vec![
        ("_level", obj(vec![("choices", Json::Array(vec![Json::Number("1".into()), s("two"), Json::Bool(true)]))])),
        ("__", obj(vec![("positional", Json::Bool(true))])),
    ]);
    let out = normalize_args(&args);
    assert_eq!(out.len(), 2);
    assert_eq!(out[0].options, ["--level"]);
    assert_eq!(out[0].kind, "string");
    assert_eq!(out[0].choices, ["1", "two", "true"]);
    // A name that is all underscores keeps its own spelling as the positional placeholder.
    assert_eq!(out[1].options, ["__"]);
    assert_eq!(out[1].kind, "positional");
}

#[test]
fn list_entries_without_a_name_and_non_string_options_are_dropped() {
    let args = Json::Array(vec![
        obj(vec![("help", s("no name"))]),
        Json::Number("3".into()),
        obj(vec![("name", s("o")), ("options", Json::Array(vec![s("-o"), Json::Null, s("--out")]))]),
    ]);
    let out = normalize_args(&args);
    assert_eq!(out.len(), 1);
    assert_eq!(out[0].options, ["-o", "--out"]);
    assert!(normalize_args(&s("nonsense")).is_empty());
}

#[test]
fn a_choice_that_is_a_table_is_its_compact_json() {
    let args = Json::Array(vec![obj(vec![
        ("name", s("c")),
        ("choices", Json::Array(vec![obj(vec![("k", s("v\"q"))])])),
    ])]);
    assert_eq!(normalize_args(&args)[0].choices, ["{\"k\":\"v\\\"q\"}"]);
}

#[test]
fn add_tasks_keeps_the_first_definition_and_skips_hidden_and_empty_names() {
    let mut tasks = Vec::new();
    let mut seen = Vec::new();
    let first = obj(vec![("tasks", obj(vec![("a", s("x")), ("_h", s("x")), ("", s("x"))]))]);
    add_tasks(&mut tasks, &first, &mut seen);
    let second = obj(vec![(
        "tasks",
        obj(vec![("a", obj(vec![("args", Json::Array(vec![s("over")]))])), ("b", s("y"))]),
    )]);
    add_tasks(&mut tasks, &second, &mut seen);
    assert_eq!(names(&tasks), ["a", "b"]);
    assert!(tasks[0].args.is_empty());
    assert_eq!(seen, ["a", "b"]);
    // A `tasks` that is not a table adds nothing.
    add_tasks(&mut tasks, &obj(vec![("tasks", s("x"))]), &mut seen);
    assert_eq!(names(&tasks), ["a", "b"]);
}

#[test]
fn include_entries_take_every_accepted_shape() {
    let one = include_items(&obj(vec![("include", s("x.toml"))]));
    assert_eq!(one.len(), 1);
    assert_eq!(include_path(&one[0]), Some("x.toml".to_string()));
    let table = include_items(&obj(vec![("include", obj(vec![("path", s("t.toml")), ("recursive", Json::Bool(false))]))]));
    assert_eq!(include_path(&table[0]), Some("t.toml".to_string()));
    assert!(!include_recursive(&table[0]));
    assert!(include_recursive(&one[0]));
    let list = include_items(&obj(vec![("include", Json::Array(vec![s("a"), Json::Null, obj(vec![("path", s("b"))])]))]));
    assert_eq!(list.len(), 2);
    assert!(include_items(&obj(vec![])).is_empty());
}

#[test]
fn include_script_entries_are_a_string_or_a_list() {
    assert_eq!(include_script_items(&obj(vec![("include_script", s("m:f"))])).len(), 1);
    assert_eq!(
        include_script_items(&obj(vec![("include_script", Json::Array(vec![s("m:f"), obj(vec![]), Json::Bool(true)]))])).len(),
        2
    );
    assert!(include_script_items(&obj(vec![("include_script", obj(vec![]))])).is_empty());
}

#[test]
fn both_path_variables_are_expanded_everywhere() {
    assert_eq!(
        expand_include_path("${POE_ROOT}/a/${POE_CONF_DIR}/${POE_ROOT}", "/r", "/c"),
        "/r/a//c//r"
    );
    assert_eq!(expand_include_path("plain.toml", "/r", "/c"), "plain.toml");
    assert_eq!(expand_include_path("${POE_ROOT", "/r", "/c"), "${POE_ROOT");
}

#[test]
fn tool_poe_is_the_section_read_and_an_absent_one_is_empty() {
    let doc = obj(vec![("tool", obj(vec![("poe", obj(vec![("tasks", obj(vec![]))]))]))]);
    assert!(matches!(poe_section(&doc), Json::Object(p) if p.len() == 1));
    assert!(matches!(poe_section(&obj(vec![])), Json::Object(p) if p.is_empty()));
}

#[test]
fn script_output_shapes_reduce_to_the_poe_body_and_the_config_path() {
    let nested = obj(vec![("tool", obj(vec![("poe", obj(vec![("tasks", obj(vec![]))]))]))]);
    let (body, path) = normalize_script_output(&nested);
    assert!(matches!(body, Json::Object(p) if p[0].0 == "tasks"));
    assert_eq!(path, None);
    let dotted = obj(vec![("tool.poe", obj(vec![("x", Json::Null)]))]);
    assert!(matches!(normalize_script_output(&dotted).0, Json::Object(p) if p[0].0 == "x"));
    let flat = obj(vec![("tasks", obj(vec![])), ("config_path", s("/m/__init__.py"))]);
    let (body, path) = normalize_script_output(&flat);
    assert!(matches!(body, Json::Object(p) if p.len() == 1 && p[0].0 == "tasks"));
    assert_eq!(path, Some("/m/__init__.py".to_string()));
}

#[test]
fn py_repr_quotes_and_escapes_like_python() {
    assert_eq!(py_repr("C:\\x\\it's"), "'C:\\\\x\\\\it\\'s'");
    assert_eq!(py_repr(""), "''");
}

#[test]
fn the_one_liner_calls_a_bare_name_and_keeps_a_call_expression() {
    let bare = script_source("pkg.mod:tasks", None).unwrap();
    assert_eq!(
        bare,
        "import os,sys,json;environ=os.environ;from importlib import import_module as _i;\
         _o=sys.stdout;sys.stdout=sys.stderr;_m = _i('pkg.mod');sys.stdout=_o;print(json.dumps(_m.tasks()));"
    );
    let call = script_source("pkg:make(1, 'a:b')", Some("/p/src")).unwrap();
    assert!(call.contains("sys.path.append('/p/src');_o=sys.stdout"), "{call}");
    assert!(call.contains("_i('pkg')"), "{call}");
    assert!(call.ends_with("print(json.dumps(_m.make(1, 'a:b')));"), "{call}");
    assert_eq!(script_source("no_colon", None), None);
}
