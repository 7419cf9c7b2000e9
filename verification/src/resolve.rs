//! The poe task table: tasks, their arguments, and the files they came from.

use vstd::prelude::*;

use crate::json::{
    Json, JsonView, as_str, clone_json, compact, jget, jget_opt, json_text, json_view,
    lemma_pairs_view, lemma_seq_view, lookup, opt_view, pair_lookup, pairs_view, seq_view,
};
use crate::text::{
    chars_of, concat, find_char, is_prefix_of, owned, push_char, starts_with_char, str_eq,
    string_of_range,
};

verus! {

/// One argument of a task, in the shape `poe _describe_task_args` prints.
#[derive(Debug, Clone, PartialEq, Eq, Default)]
pub struct TaskArg {
    pub name: String,
    pub options: Vec<String>,
    /// `boolean`, `string`, `integer`, `float`, or `positional`.
    pub kind: String,
    pub help: String,
    pub choices: Vec<String>,
}

/// The mathematical content of a [`TaskArg`].
pub ghost struct TaskArgView {
    pub name: Seq<char>,
    pub options: Seq<Seq<char>>,
    pub kind: Seq<char>,
    pub help: Seq<char>,
    pub choices: Seq<Seq<char>>,
}

impl View for TaskArg {
    type V = TaskArgView;

    open spec fn view(&self) -> TaskArgView {
        TaskArgView {
            name: self.name@,
            options: self.options.deep_view(),
            kind: self.kind@,
            help: self.help@,
            choices: self.choices.deep_view(),
        }
    }
}

/// One task poe would offer.
#[derive(Debug, Clone, PartialEq, Eq, Default)]
pub struct Task {
    pub name: String,
    pub args: Vec<TaskArg>,
}

/// The mathematical content of a [`Task`].
pub ghost struct TaskView {
    pub name: Seq<char>,
    pub args: Seq<TaskArgView>,
}

/// The views of a list of arguments.
pub open spec fn args_view(args: Seq<TaskArg>) -> Seq<TaskArgView> {
    args.map_values(|a: TaskArg| a@)
}

impl View for Task {
    type V = TaskView;

    open spec fn view(&self) -> TaskView {
        TaskView { name: self.name@, args: args_view(self.args@) }
    }
}

/// The views of a list of tasks.
pub open spec fn tasks_view(tasks: Seq<Task>) -> Seq<TaskView> {
    tasks.map_values(|t: Task| t@)
}

/// The resolved task table plus every file it was derived from, so a cache can be keyed on
/// their modification times.
#[derive(Debug, Clone, PartialEq, Eq, Default)]
pub struct Resolved {
    pub tasks: Vec<Task>,
    pub sources: Vec<String>,
}

// ---- task arguments ---------------------------------------------------------------------

/// A choice's completion text: a string as it is, anything else as its JSON text.
pub open spec fn scalar_string(v: JsonView) -> Seq<char> {
    match v {
        JsonView::Str(s) => s,
        _ => compact(v),
    }
}

/// A choice may be a number in TOML; the completion text is its string form.
fn json_scalar_string(v: &Json) -> (r: String)
    ensures
        r@ == scalar_string(v@),
{
    match v {
        Json::Str(s) => s.clone(),
        _ => json_text(v),
    }
}

/// `name` without its leading underscores.
pub open spec fn strip_underscores(name: Seq<char>) -> Seq<char>
    decreases name.len(),
{
    if name.len() > 0 && name[0] == '_' {
        strip_underscores(name.drop_first())
    } else {
        name
    }
}

/// The length of the run of `_` that opens `name`, with what follows it.
proof fn lemma_leading_run(name: Seq<char>) -> (k: int)
    ensures
        0 <= k <= name.len(),
        forall|i: int| 0 <= i < k ==> name[i] == '_',
        k < name.len() ==> name[k] != '_',
        strip_underscores(name) == name.subrange(k, name.len() as int),
    decreases name.len(),
{
    if name.len() > 0 && name[0] == '_' {
        let rest = name.drop_first();
        let k = lemma_leading_run(rest);
        assert(rest.subrange(k, rest.len() as int) =~= name.subrange(k + 1, name.len() as int));
        assert forall|i: int| 0 <= i < k + 1 implies name[i] == '_' by {
            if i > 0 {
                assert(name[i] == rest[i - 1]);
            }
        }
        assert(k + 1 < name.len() ==> name[k + 1] == rest[k]);
        k + 1
    } else {
        assert(name.subrange(0, name.len() as int) =~= name);
        0
    }
}

/// Only the leading underscores of a name are dropped: the result is what follows the run of
/// `_` that opens the name, so a name that does not start with `_` is kept whole and an `_`
/// after its first other character stays.
pub proof fn lemma_strip_only_leading(name: Seq<char>)
    ensures
        exists|k: int|
            #![trigger name.subrange(k, name.len() as int)]
            0 <= k <= name.len() && (forall|i: int| 0 <= i < k ==> name[i] == '_') && (k
                < name.len() ==> name[k] != '_') && strip_underscores(name) == name.subrange(
                k,
                name.len() as int,
            ),
        (name.len() == 0 || name[0] != '_') ==> strip_underscores(name) == name,
{
    let k = lemma_leading_run(name);
    assert(strip_underscores(name) == name.subrange(k, name.len() as int));
    if name.len() == 0 || name[0] != '_' {
        assert(k == 0);
        assert(name.subrange(0, name.len() as int) =~= name);
    }
}

/// An argument listed by its name alone is an option of kind `string` spelled `--` and the
/// name without its leading underscores, with no help and no choices: `dry_run` is offered as
/// `--dry_run`, and a name that does not start with `_` as `--` and the whole name.
pub proof fn lemma_default_option(name: Seq<char>)
    ensures
        spec_normalize_args(JsonView::Array(seq![JsonView::Str(name)])) == seq![
            TaskArgView {
                name,
                options: seq!["--"@ + strip_underscores(name)],
                kind: "string"@,
                help: seq![],
                choices: seq![],
            },
        ],
        (name.len() == 0 || name[0] != '_') ==> spec_normalize_args(
            JsonView::Array(seq![JsonView::Str(name)]),
        )[0].options == seq!["--"@ + name],
{
    lemma_strip_only_leading(name);
    let items = seq![JsonView::Str(name)];
    assert(items.drop_last() =~= Seq::<JsonView>::empty());
    assert(items.last() == JsonView::Str(name));
    assert(args_from_list(items.drop_last()) =~= Seq::<TaskArgView>::empty());
    let empty = JsonView::Object(seq![]);
    assert(jget(empty, "positional"@) is None);
    assert(jget(empty, "options"@) is None);
    assert(jget(empty, "type"@) is None);
    assert(jget(empty, "help"@) is None);
    assert(jget(empty, "choices"@) is None);
    assert(spec_normalize_args(JsonView::Array(items)) =~= seq![arg_spec(name, empty)]);
}

/// The strings among `items`, in order (other values are skipped).
pub open spec fn string_elems(items: Seq<JsonView>) -> Seq<Seq<char>>
    decreases items.len(),
{
    if items.len() == 0 {
        seq![]
    } else {
        match items.last() {
            JsonView::Str(s) => string_elems(items.drop_last()).push(s),
            _ => string_elems(items.drop_last()),
        }
    }
}

/// The completion texts of a `choices` array.
pub open spec fn choice_strings(items: Seq<JsonView>) -> Seq<Seq<char>>
    decreases items.len(),
{
    if items.len() == 0 {
        seq![]
    } else {
        choice_strings(items.drop_last()).push(scalar_string(items.last()))
    }
}

/// Mirror of poe's `ArgSpec.normalize` plus `_get_arg_options_list` for one argument named
/// `name` with parameter table `params`.
pub open spec fn arg_spec(name: Seq<char>, params: JsonView) -> TaskArgView {
    let stripped = strip_underscores(name);
    let positional = match jget(params, "positional"@) {
        Some(p) => p,
        None => JsonView::Bool(false),
    };
    let (options, kind) = match positional {
        // `positional = "WHERE"` names the placeholder; `positional = true` uses the name.
        JsonView::Str(s) => (seq![s], "positional"@),
        JsonView::Bool(true) => (
            seq![
                if stripped.len() == 0 {
                    name
                } else {
                    stripped
                },
            ],
            "positional"@,
        ),
        _ => (
            match jget(params, "options"@) {
                Some(JsonView::Array(a)) => string_elems(a),
                _ => seq!["--"@ + stripped],
            },
            match as_str(jget(params, "type"@)) {
                Some(t) => t,
                None => "string"@,
            },
        ),
    };
    TaskArgView {
        name,
        options,
        kind,
        help: match as_str(jget(params, "help"@)) {
            Some(h) => h,
            None => seq![],
        },
        choices: match jget(params, "choices"@) {
            Some(JsonView::Array(a)) => choice_strings(a),
            _ => seq![],
        },
    }
}

/// The arguments of an `args` list: names, or tables carrying a `name`.
pub open spec fn args_from_list(items: Seq<JsonView>) -> Seq<TaskArgView>
    decreases items.len(),
{
    if items.len() == 0 {
        seq![]
    } else {
        let before = args_from_list(items.drop_last());
        let item = items.last();
        match item {
            JsonView::Str(name) => before.push(arg_spec(name, JsonView::Object(seq![]))),
            JsonView::Object(_) => match as_str(jget(item, "name"@)) {
                Some(name) => before.push(arg_spec(name, item)),
                None => before,
            },
            _ => before,
        }
    }
}

/// The arguments of an `args` table keyed by name.
pub open spec fn args_from_table(pairs: Seq<(Seq<char>, JsonView)>) -> Seq<TaskArgView>
    decreases pairs.len(),
{
    if pairs.len() == 0 {
        seq![]
    } else {
        args_from_table(pairs.drop_last()).push(arg_spec(pairs.last().0, pairs.last().1))
    }
}

/// `args` may be a list of names or tables, or a table keyed by name.
pub open spec fn spec_normalize_args(args: JsonView) -> Seq<TaskArgView> {
    match args {
        JsonView::Array(items) => args_from_list(items),
        JsonView::Object(pairs) => args_from_table(pairs),
        _ => seq![],
    }
}

/// The strings of an array, or `None` when `v` is not an array.
fn string_members(items: &Vec<Json>) -> (r: Vec<String>)
    ensures
        r.deep_view() == string_elems(seq_view(items@)),
{
    proof {
        lemma_seq_view(items@);
    }
    let ghost iv = seq_view(items@);
    let mut out: Vec<String> = Vec::new();
    let mut i: usize = 0;
    while i < items.len()
        invariant
            i <= items.len(),
            iv == seq_view(items@),
            iv.len() == items@.len(),
            forall|k: int| 0 <= k < items@.len() ==> #[trigger] iv[k] == json_view(items@[k]),
            out.deep_view() == string_elems(iv.take(i as int)),
        decreases items.len() - i,
    {
        assert(iv.take(i + 1).drop_last() =~= iv.take(i as int));
        assert(iv.take(i + 1).last() == iv[i as int]);
        match &items[i] {
            Json::Str(s) => {
                let ghost before = out.deep_view();
                out.push(s.clone());
                assert(out.deep_view() =~= before.push(s@));
            },
            _ => {},
        }
        i += 1;
    }
    assert(iv.take(items@.len() as int) =~= iv);
    out
}

/// The completion texts of a `choices` array.
fn choice_members(items: &Vec<Json>) -> (r: Vec<String>)
    ensures
        r.deep_view() == choice_strings(seq_view(items@)),
{
    proof {
        lemma_seq_view(items@);
    }
    let ghost iv = seq_view(items@);
    let mut out: Vec<String> = Vec::new();
    let mut i: usize = 0;
    while i < items.len()
        invariant
            i <= items.len(),
            iv == seq_view(items@),
            iv.len() == items@.len(),
            forall|k: int| 0 <= k < items@.len() ==> #[trigger] iv[k] == json_view(items@[k]),
            out.deep_view() == choice_strings(iv.take(i as int)),
        decreases items.len() - i,
    {
        assert(iv.take(i + 1).drop_last() =~= iv.take(i as int));
        assert(iv.take(i + 1).last() == iv[i as int]);
        let ghost before = out.deep_view();
        let c = json_scalar_string(&items[i]);
        out.push(c);
        assert(out.deep_view() =~= before.push(scalar_string(iv[i as int])));
        i += 1;
    }
    assert(iv.take(items@.len() as int) =~= iv);
    out
}

/// `name` without its leading underscores.
fn trim_underscores(name: &str) -> (r: String)
    ensures
        r@ == strip_underscores(name@),
{
    let cs = chars_of(name);
    let mut i: usize = 0;
    assert(cs@.subrange(0, cs@.len() as int) =~= cs@);
    while i < cs.len() && cs[i] == '_'
        invariant
            i <= cs.len(),
            cs@ == name@,
            strip_underscores(name@) == strip_underscores(cs@.subrange(i as int, cs@.len() as int)),
        decreases cs.len() - i,
    {
        assert(cs@.subrange(i as int, cs@.len() as int).drop_first() =~= cs@.subrange(
            i + 1,
            cs@.len() as int,
        ));
        i += 1;
    }
    string_of_range(&cs, i, cs.len())
}

/// The string member `key` of `params`, if it is one.
fn str_member(params: &Json, key: &str) -> (r: Option<String>)
    ensures
        opt_chars(r) == as_str(jget(params@, key@)),
{
    match lookup(params, key) {
        Some(Json::Str(s)) => Some(s.clone()),
        _ => None,
    }
}

/// The view of an optional string.
pub open spec fn opt_chars(o: Option<String>) -> Option<Seq<char>> {
    match o {
        Some(s) => Some(s@),
        None => None,
    }
}

/// One argument named `name` with parameter table `params`.
fn arg_from(name: &str, params: &Json) -> (r: TaskArg)
    ensures
        r@ == arg_spec(name@, params@),
{
    let stripped = trim_underscores(name);
    let positional = lookup(params, "positional");
    let ghost pos_view = match jget(params@, "positional"@) {
        Some(p) => p,
        None => JsonView::Bool(false),
    };
    let (options, kind): (Vec<String>, String) = match positional {
        Some(Json::Str(s)) => (vec![s.clone()], owned("positional")),
        Some(Json::Bool(true)) => {
            let placeholder = if stripped.as_str().unicode_len() == 0 {
                owned(name)
            } else {
                stripped.clone()
            };
            (vec![placeholder], owned("positional"))
        },
        _ => {
            let options = match lookup(params, "options") {
                Some(Json::Array(a)) => string_members(a),
                _ => vec![concat("--", stripped.as_str())],
            };
            let kind = match str_member(params, "type") {
                Some(t) => t,
                None => owned("string"),
            };
            (options, kind)
        },
    };
    let help = match str_member(params, "help") {
        Some(h) => h,
        None => String::new(),
    };
    let choices = match lookup(params, "choices") {
        Some(Json::Array(a)) => choice_members(a),
        _ => Vec::new(),
    };
    let r = TaskArg { name: owned(name), options, kind, help, choices };
    assert(r.options.deep_view() =~= arg_spec(name@, params@).options);
    assert(r.choices.deep_view() =~= arg_spec(name@, params@).choices);
    r
}

/// Mirror of poe's `ArgSpec.normalize` plus `_get_arg_options_list`: `args` may be a list of
/// names or tables, or a table keyed by name.
pub fn normalize_args(args: &Json) -> (r: Vec<TaskArg>)
    ensures
        args_view(r@) == spec_normalize_args(args@),
{
    let mut out: Vec<TaskArg> = Vec::new();
    match args {
        Json::Array(items) => {
            proof {
                lemma_seq_view(items@);
            }
            let ghost iv = seq_view(items@);
            let mut i: usize = 0;
            while i < items.len()
                invariant
                    i <= items.len(),
                    iv == seq_view(items@),
                    iv.len() == items@.len(),
                    forall|k: int| 0 <= k < items@.len() ==> #[trigger] iv[k] == json_view(items@[k]),
                    args_view(out@) == args_from_list(iv.take(i as int)),
                decreases items.len() - i,
            {
                assert(iv.take(i + 1).drop_last() =~= iv.take(i as int));
                assert(iv.take(i + 1).last() == iv[i as int]);
                let ghost before = args_view(out@);
                let item = &items[i];
                match item {
                    Json::Str(name) => {
                        let empty = Json::Object(Vec::new());
                        assert(empty@ =~= JsonView::Object(seq![]));
                        out.push(arg_from(name.as_str(), &empty));
                        assert(args_view(out@) =~= before.push(
                            arg_spec(name@, JsonView::Object(seq![])),
                        ));
                    },
                    Json::Object(_) => {
                        match str_member(item, "name") {
                            Some(name) => {
                                out.push(arg_from(name.as_str(), item));
                                assert(args_view(out@) =~= before.push(arg_spec(name@, item@)));
                            },
                            None => {},
                        }
                    },
                    _ => {},
                }
                i += 1;
            }
            assert(iv.take(items@.len() as int) =~= iv);
        },
        Json::Object(pairs) => {
            proof {
                lemma_pairs_view(pairs@);
            }
            let ghost pv = pairs_view(pairs@);
            let mut i: usize = 0;
            while i < pairs.len()
                invariant
                    i <= pairs.len(),
                    pv == pairs_view(pairs@),
                    pv.len() == pairs@.len(),
                    forall|k: int|
                        0 <= k < pairs@.len() ==> #[trigger] pv[k] == (
                            pairs@[k].0@,
                            json_view(pairs@[k].1),
                        ),
                    args_view(out@) == args_from_table(pv.take(i as int)),
                decreases pairs.len() - i,
            {
                assert(pv.take(i + 1).drop_last() =~= pv.take(i as int));
                assert(pv.take(i + 1).last() == pv[i as int]);
                let ghost before = args_view(out@);
                out.push(arg_from(pairs[i].0.as_str(), &pairs[i].1));
                assert(args_view(out@) =~= before.push(arg_spec(pv[i as int].0, pv[i as int].1)));
                i += 1;
            }
            assert(pv.take(pairs@.len() as int) =~= pv);
        },
        _ => {
            assert(args_view(out@) =~= seq![]);
        },
    }
    out
}

// ---- tasks ------------------------------------------------------------------------------

/// A name poe lists: not empty, not hidden (`_`-prefixed), not already taken.
pub open spec fn listed_name(name: Seq<char>, seen: Seq<Seq<char>>) -> bool {
    name.len() > 0 && name[0] != '_' && !seen.contains(name)
}

/// The arguments of a task definition.
pub open spec fn def_args(def: JsonView) -> Seq<TaskArgView> {
    match jget(def, "args"@) {
        Some(a) => spec_normalize_args(a),
        None => seq![],
    }
}

/// The tasks a `tasks` table adds in definition order, and the names taken afterwards,
/// starting from the names in `seen`.
pub open spec fn tasks_from(pairs: Seq<(Seq<char>, JsonView)>, seen: Seq<Seq<char>>) -> (
    Seq<TaskView>,
    Seq<Seq<char>>,
)
    decreases pairs.len(),
{
    if pairs.len() == 0 {
        (seq![], seen)
    } else {
        let (tasks, taken) = tasks_from(pairs.drop_last(), seen);
        let (name, def) = pairs.last();
        if listed_name(name, taken) {
            (tasks.push(TaskView { name, args: def_args(def) }), taken.push(name))
        } else {
            (tasks, taken)
        }
    }
}

/// What `poe["tasks"]` adds: its tasks not seen yet, and the names taken afterwards.
pub open spec fn spec_add_tasks(poe: JsonView, seen: Seq<Seq<char>>) -> (
    Seq<TaskView>,
    Seq<Seq<char>>,
) {
    match jget(poe, "tasks"@) {
        Some(JsonView::Object(pairs)) => tasks_from(pairs, seen),
        _ => (seq![], seen),
    }
}

/// Whether `name` is among `seen`.
fn contains_name(seen: &Vec<String>, name: &str) -> (r: bool)
    ensures
        r == seen.deep_view().contains(name@),
{
    let ghost sv = seen.deep_view();
    let mut i: usize = 0;
    while i < seen.len()
        invariant
            i <= seen.len(),
            sv == seen.deep_view(),
            forall|j: int| 0 <= j < i ==> sv[j] != name@,
        decreases seen.len() - i,
    {
        assert(sv[i as int] == seen[i as int]@);
        if str_eq(seen[i].as_str(), name) {
            return true;
        }
        i += 1;
    }
    false
}

/// Append every task under `poe["tasks"]` not yet seen. Hidden `_`-prefixed tasks are
/// skipped the way `poe _list_tasks` skips them; a name already seen keeps its first
/// definition.
pub fn add_tasks(tasks: &mut Vec<Task>, poe: &Json, seen: &mut Vec<String>)
    ensures
        tasks_view(final(tasks)@) == tasks_view(old(tasks)@) + spec_add_tasks(
            poe@,
            old(seen).deep_view(),
        ).0,
        final(seen).deep_view() == spec_add_tasks(poe@, old(seen).deep_view()).1,
{
    let ghost start = tasks_view(tasks@);
    let ghost seen0 = seen.deep_view();
    let table = match lookup(poe, "tasks") {
        Some(Json::Object(pairs)) => pairs,
        _ => {
            assert(start + seq![] =~= start);
            return;
        },
    };
    proof {
        lemma_pairs_view(table@);
    }
    let ghost pv = pairs_view(table@);
    let mut i: usize = 0;
    while i < table.len()
        invariant
            i <= table.len(),
            pv == pairs_view(table@),
            pv.len() == table@.len(),
            forall|k: int|
                0 <= k < table@.len() ==> #[trigger] pv[k] == (table@[k].0@, json_view(table@[k].1)),
            tasks_view(tasks@) == start + tasks_from(pv.take(i as int), seen0).0,
            seen.deep_view() == tasks_from(pv.take(i as int), seen0).1,
        decreases table.len() - i,
    {
        assert(pv.take(i + 1).drop_last() =~= pv.take(i as int));
        assert(pv.take(i + 1).last() == pv[i as int]);
        let name = table[i].0.as_str();
        let def = &table[i].1;
        let ghost before_tasks = tasks_view(tasks@);
        let ghost before_seen = seen.deep_view();
        let listed = name.unicode_len() > 0 && !starts_with_char(name, '_') && !contains_name(
            seen,
            name,
        );
        if listed {
            let args = match lookup(def, "args") {
                Some(a) => normalize_args(a),
                None => Vec::new(),
            };
            assert(args_view(args@) =~= def_args(def@));
            seen.push(owned(name));
            tasks.push(Task { name: owned(name), args });
            assert(seen.deep_view() =~= before_seen.push(name@));
            assert(tasks_view(tasks@) =~= before_tasks.push(TaskView { name: name@, args: def_args(def@) }));
        }
        i += 1;
    }
    assert(pv.take(table@.len() as int) =~= pv);
}

/// The names of a task list, in order.
pub open spec fn names(tasks: Seq<TaskView>) -> Seq<Seq<char>> {
    tasks.map_values(|t: TaskView| t.name)
}

/// Every name is one poe lists (not empty, not `_`-prefixed) and none occurs twice.
pub open spec fn distinct_listed(names: Seq<Seq<char>>) -> bool {
    &&& forall|i: int| 0 <= i < names.len() ==> #[trigger] names[i].len() > 0 && names[i][0] != '_'
    &&& forall|i: int, j: int| 0 <= i < j < names.len() ==> names[i] != names[j]
}

proof fn lemma_tasks_from_names(pairs: Seq<(Seq<char>, JsonView)>, tasks: Seq<TaskView>)
    requires
        distinct_listed(names(tasks)),
    ensures
        tasks_from(pairs, names(tasks)).1 == names(tasks + tasks_from(pairs, names(tasks)).0),
        distinct_listed(names(tasks + tasks_from(pairs, names(tasks)).0)),
    decreases pairs.len(),
{
    if pairs.len() == 0 {
        assert(tasks + seq![] =~= tasks);
    } else {
        lemma_tasks_from_names(pairs.drop_last(), tasks);
        let (t, k) = tasks_from(pairs.drop_last(), names(tasks));
        let (name, def) = pairs.last();
        if listed_name(name, k) {
            let v = TaskView { name, args: def_args(def) };
            assert(tasks + t.push(v) =~= (tasks + t).push(v));
            let nn = names((tasks + t).push(v));
            assert(nn =~= k.push(name));
            assert forall|i: int, j: int| 0 <= i < j < nn.len() implies nn[i] != nn[j] by {
                if j == nn.len() - 1 {
                    assert(k[i] == nn[i]);
                }
            }
        }
    }
}

/// Adding a `tasks` table to a list whose names are listed and distinct keeps them so, and
/// the names taken afterwards are exactly the names of the longer list: a name already
/// present is never added again, so nothing an earlier source defined is overridden.
pub proof fn lemma_add_tasks_names(poe: JsonView, tasks: Seq<TaskView>)
    requires
        distinct_listed(names(tasks)),
    ensures
        spec_add_tasks(poe, names(tasks)).1 == names(tasks + spec_add_tasks(poe, names(tasks)).0),
        distinct_listed(names(tasks + spec_add_tasks(poe, names(tasks)).0)),
{
    match jget(poe, "tasks"@) {
        Some(JsonView::Object(pairs)) => lemma_tasks_from_names(pairs, tasks),
        _ => {
            assert(tasks + seq![] =~= tasks);
        },
    }
}

// ---- includes ---------------------------------------------------------------------------

/// `{ path = s }`, the table form of an include given as a bare string.
pub open spec fn keyed(key: Seq<char>, s: Seq<char>) -> JsonView {
    JsonView::Object(seq![(key, JsonView::Str(s))])
}

/// The entries of an include list: strings become `{ <key> = s }`, tables stay, anything
/// else is dropped.
pub open spec fn entries_of(items: Seq<JsonView>, key: Seq<char>) -> Seq<JsonView>
    decreases items.len(),
{
    if items.len() == 0 {
        seq![]
    } else {
        let before = entries_of(items.drop_last(), key);
        match items.last() {
            JsonView::Str(s) => before.push(keyed(key, s)),
            JsonView::Object(p) => before.push(JsonView::Object(p)),
            _ => before,
        }
    }
}

/// `include` normalized to `[{path, cwd?, recursive?}]` like poe's
/// `_normalize_included_config_path`.
pub open spec fn spec_include_items(poe: JsonView) -> Seq<JsonView> {
    match jget(poe, "include"@) {
        Some(JsonView::Str(s)) => seq![keyed("path"@, s)],
        Some(JsonView::Object(p)) => seq![JsonView::Object(p)],
        Some(JsonView::Array(a)) => entries_of(a, "path"@),
        _ => seq![],
    }
}

/// `include_script` normalized to `[{script, cwd?}]`.
pub open spec fn spec_include_script_items(poe: JsonView) -> Seq<JsonView> {
    match jget(poe, "include_script"@) {
        Some(JsonView::Str(s)) => seq![keyed("script"@, s)],
        Some(JsonView::Array(a)) => entries_of(a, "script"@),
        _ => seq![],
    }
}

/// The views of a list of values.
pub open spec fn jsons_view(v: Seq<Json>) -> Seq<JsonView> {
    v.map_values(|j: Json| j@)
}

/// `{ <key> = s }`.
fn keyed_entry(key: &str, s: &str) -> (r: Json)
    ensures
        r@ == keyed(key@, s@),
{
    let pairs = vec![(owned(key), Json::Str(owned(s)))];
    let r = Json::Object(pairs);
    proof {
        lemma_pairs_view(pairs@);
    }
    assert(pairs_view(pairs@) =~= seq![(key@, JsonView::Str(s@))]);
    r
}

/// The entries of an include list.
fn entries(items: &Vec<Json>, key: &str) -> (r: Vec<Json>)
    ensures
        jsons_view(r@) == entries_of(seq_view(items@), key@),
{
    proof {
        lemma_seq_view(items@);
    }
    let ghost iv = seq_view(items@);
    let mut out: Vec<Json> = Vec::new();
    let mut i: usize = 0;
    while i < items.len()
        invariant
            i <= items.len(),
            iv == seq_view(items@),
            iv.len() == items@.len(),
            forall|k: int| 0 <= k < items@.len() ==> #[trigger] iv[k] == json_view(items@[k]),
            jsons_view(out@) == entries_of(iv.take(i as int), key@),
        decreases items.len() - i,
    {
        assert(iv.take(i + 1).drop_last() =~= iv.take(i as int));
        assert(iv.take(i + 1).last() == iv[i as int]);
        let ghost before = jsons_view(out@);
        match &items[i] {
            Json::Str(s) => {
                out.push(keyed_entry(key, s.as_str()));
                assert(jsons_view(out@) =~= before.push(keyed(key@, s@)));
            },
            Json::Object(_) => {
                let c = clone_json(&items[i]);
                out.push(c);
                assert(jsons_view(out@) =~= before.push(iv[i as int]));
            },
            _ => {},
        }
        i += 1;
    }
    assert(iv.take(items@.len() as int) =~= iv);
    out
}

/// `include` normalized to `[{path, cwd?, recursive?}]`.
pub fn include_items(poe: &Json) -> (r: Vec<Json>)
    ensures
        jsons_view(r@) == spec_include_items(poe@),
{
    match lookup(poe, "include") {
        Some(Json::Str(s)) => {
            let r = vec![keyed_entry("path", s.as_str())];
            assert(jsons_view(r@) =~= spec_include_items(poe@));
            r
        },
        Some(Json::Object(p)) => {
            let item = lookup(poe, "include");
            let r = vec![clone_json(item.unwrap())];
            assert(jsons_view(r@) =~= spec_include_items(poe@));
            r
        },
        Some(Json::Array(a)) => entries(a, "path"),
        _ => {
            let r: Vec<Json> = Vec::new();
            assert(jsons_view(r@) =~= seq![]);
            r
        },
    }
}

/// `include_script` normalized to `[{script, cwd?}]`.
pub fn include_script_items(poe: &Json) -> (r: Vec<Json>)
    ensures
        jsons_view(r@) == spec_include_script_items(poe@),
{
    match lookup(poe, "include_script") {
        Some(Json::Str(s)) => {
            let r = vec![keyed_entry("script", s.as_str())];
            assert(jsons_view(r@) =~= spec_include_script_items(poe@));
            r
        },
        Some(Json::Array(a)) => entries(a, "script"),
        _ => {
            let r: Vec<Json> = Vec::new();
            assert(jsons_view(r@) =~= seq![]);
            r
        },
    }
}

// ---- the poe section and script output -------------------------------------------------

/// `tool.poe` of a document, or an empty table when it has none: an empty table keeps the
/// rest of the resolution uniform.
pub open spec fn spec_poe_section(doc: JsonView) -> JsonView {
    match jget_opt(jget(doc, "tool"@), "poe"@) {
        Some(p) => p,
        None => JsonView::Object(seq![]),
    }
}

/// `tool.poe` of a parsed `pyproject.toml` (or included file).
pub fn poe_section(doc: &Json) -> (r: Json)
    ensures
        r@ == spec_poe_section(doc@),
{
    match lookup(doc, "tool") {
        Some(tool) => match lookup(tool, "poe") {
            Some(p) => clone_json(p),
            None => {
                let r = Json::Object(Vec::new());
                assert(r@ =~= JsonView::Object(seq![]));
                r
            },
        },
        None => {
            let r = Json::Object(Vec::new());
            assert(r@ =~= JsonView::Object(seq![]));
            r
        },
    }
}

/// `pairs` without the entries keyed `key`.
pub open spec fn without_key(pairs: Seq<(Seq<char>, JsonView)>, key: Seq<char>) -> Seq<
    (Seq<char>, JsonView),
>
    decreases pairs.len(),
{
    if pairs.len() == 0 {
        seq![]
    } else if pairs.last().0 == key {
        without_key(pairs.drop_last(), key)
    } else {
        without_key(pairs.drop_last(), key).push(pairs.last())
    }
}

/// poe's three accepted shapes for script output, reduced to the `tool.poe` body, plus the
/// `config_path` the script reported (taken out of the output first).
pub open spec fn spec_script_output(v: JsonView) -> (JsonView, Option<Seq<char>>) {
    let (rest, config) = match v {
        JsonView::Object(pairs) => (
            JsonView::Object(without_key(pairs, "config_path"@)),
            match pair_lookup(pairs, "config_path"@, 0) {
                Some(JsonView::Str(p)) => Some(p),
                _ => None,
            },
        ),
        _ => (v, None),
    };
    let body = match jget_opt(jget(rest, "tool"@), "poe"@) {
        Some(b) => b,
        None => match jget(rest, "tool.poe"@) {
            Some(b) => b,
            None => rest,
        },
    };
    (body, config)
}

/// poe's three accepted shapes for script output, reduced to the `tool.poe` body, plus the
/// `config_path` the script reported (the module file, for cache invalidation).
pub fn normalize_script_output(json: &Json) -> (r: (Json, Option<String>))
    ensures
        (r.0@, opt_chars(r.1)) == spec_script_output(json@),
{
    let (rest, config): (Json, Option<String>) = match json {
        Json::Object(pairs) => {
            proof {
                lemma_pairs_view(pairs@);
            }
            let ghost pv = pairs_view(pairs@);
            let config = str_member(json, "config_path");
            let mut kept: Vec<(String, Json)> = Vec::new();
            let mut i: usize = 0;
            while i < pairs.len()
                invariant
                    i <= pairs.len(),
                    pv == pairs_view(pairs@),
                    pv.len() == pairs@.len(),
                    forall|k: int|
                        0 <= k < pairs@.len() ==> #[trigger] pv[k] == (
                            pairs@[k].0@,
                            json_view(pairs@[k].1),
                        ),
                    pairs_view(kept@) == without_key(pv.take(i as int), "config_path"@),
                decreases pairs.len() - i,
            {
                assert(pv.take(i + 1).drop_last() =~= pv.take(i as int));
                assert(pv.take(i + 1).last() == pv[i as int]);
                if !str_eq(pairs[i].0.as_str(), "config_path") {
                    let ghost before = kept@;
                    kept.push((pairs[i].0.clone(), clone_json(&pairs[i].1)));
                    assert(kept@.drop_last() =~= before);
                }
                i += 1;
            }
            assert(pv.take(pairs@.len() as int) =~= pv);
            (Json::Object(kept), config)
        },
        _ => (clone_json(json), None),
    };
    let tool_poe = match lookup(&rest, "tool") {
        Some(tool) => lookup(tool, "poe"),
        None => None,
    };
    let body = match tool_poe {
        Some(b) => clone_json(b),
        None => match lookup(&rest, "tool.poe") {
            Some(b) => clone_json(b),
            None => rest,
        },
    };
    (body, config)
}

// ---- include files ----------------------------------------------------------------------

/// `s` with every non-overlapping occurrence of `pat`, scanning left to right, replaced by
/// `rep`.
pub open spec fn replaced(s: Seq<char>, pat: Seq<char>, rep: Seq<char>) -> Seq<char>
    decreases s.len(),
{
    if pat.len() == 0 || s.len() == 0 {
        s
    } else if is_prefix_of(pat, s) {
        rep + replaced(s.subrange(pat.len() as int, s.len() as int), pat, rep)
    } else {
        seq![s[0]] + replaced(s.drop_first(), pat, rep)
    }
}

/// `s` with every occurrence of `pat` replaced by `rep`.
fn replace_all(s: &str, pat: &str, rep: &str) -> (r: String)
    requires
        pat@.len() > 0,
    ensures
        r@ == replaced(s@, pat@, rep@),
{
    let cs = chars_of(s);
    let pc = chars_of(pat);
    let mut out = String::new();
    let mut i: usize = 0;
    assert(cs@.subrange(0, cs@.len() as int) =~= cs@);
    while i < cs.len()
        invariant
            i <= cs.len(),
            cs@ == s@,
            pc@ == pat@,
            pc@.len() > 0,
            out@ + replaced(cs@.subrange(i as int, cs@.len() as int), pat@, rep@) == replaced(
                s@,
                pat@,
                rep@,
            ),
        decreases cs.len() - i,
    {
        let ghost rest = cs@.subrange(i as int, cs@.len() as int);
        let fits = pc.len() <= cs.len() - i;
        let hit = fits && matches_here(&cs, i, &pc);
        if hit {
            assert(is_prefix_of(pat@, rest)) by {
                assert(rest.subrange(0, pat@.len() as int) =~= cs@.subrange(i as int, i + pc@.len()));
            }
            assert(rest.subrange(pat@.len() as int, rest.len() as int) =~= cs@.subrange(
                i + pc@.len(),
                cs@.len() as int,
            ));
            out.append(rep);
            assert(out@ + replaced(cs@.subrange(i + pc@.len(), cs@.len() as int), pat@, rep@)
                =~= replaced(s@, pat@, rep@));
            i += pc.len();
        } else {
            assert(!is_prefix_of(pat@, rest)) by {
                if fits {
                    assert(rest.subrange(0, pat@.len() as int) =~= cs@.subrange(
                        i as int,
                        i + pc@.len(),
                    ));
                }
            }
            push_char(&mut out, cs[i]);
            assert(rest.drop_first() =~= cs@.subrange(i + 1, cs@.len() as int));
            assert(out@ + replaced(cs@.subrange(i + 1, cs@.len() as int), pat@, rep@) =~= replaced(
                s@,
                pat@,
                rep@,
            ));
            i += 1;
        }
    }
    assert(replaced(cs@.subrange(i as int, cs@.len() as int), pat@, rep@) =~= seq![]);
    assert(out@ =~= out@ + seq![]);
    out
}

/// Whether `pc` occurs in `cs` at `i`.
pub(crate) fn matches_here(cs: &Vec<char>, i: usize, pc: &Vec<char>) -> (r: bool)
    requires
        i + pc.len() <= cs.len(),
    ensures
        r == (cs@.subrange(i as int, i + pc.len()) == pc@),
{
    let mut k: usize = 0;
    while k < pc.len()
        invariant
            k <= pc.len(),
            i + pc.len() <= cs.len(),
            cs@.subrange(i as int, i + k) == pc@.subrange(0, k as int),
        decreases pc.len() - k,
    {
        if cs[i + k] != pc[k] {
            assert(cs@.subrange(i as int, i + pc.len())[k as int] != pc@[k as int]);
            return false;
        }
        assert(cs@.subrange(i as int, i + k + 1) =~= pc@.subrange(0, k + 1));
        k += 1;
    }
    assert(pc@.subrange(0, k as int) =~= pc@);
    true
}

/// The include path with poe's two path variables expanded: `${POE_ROOT}` to the project
/// root, then `${POE_CONF_DIR}` to the directory of the including file.
pub open spec fn spec_expand_include_path(rel: Seq<char>, root: Seq<char>, conf_dir: Seq<char>) -> Seq<
    char,
> {
    replaced(replaced(rel, "${POE_ROOT}"@, root), "${POE_CONF_DIR}"@, conf_dir)
}

/// `${POE_ROOT}` and `${POE_CONF_DIR}` are the two path variables poe expands in an include.
pub fn expand_include_path(rel: &str, root: &str, conf_dir: &str) -> (r: String)
    ensures
        r@ == spec_expand_include_path(rel@, root@, conf_dir@),
{
    proof {
        reveal_strlit("${POE_ROOT}");
        reveal_strlit("${POE_CONF_DIR}");
    }
    let first = replace_all(rel, "${POE_ROOT}", root);
    replace_all(first.as_str(), "${POE_CONF_DIR}", conf_dir)
}

/// The `path` of an include entry.
pub fn include_path(item: &Json) -> (r: Option<String>)
    ensures
        opt_chars(r) == as_str(jget(item@, "path"@)),
{
    str_member(item, "path")
}

/// Whether an include entry's own includes are followed: its `recursive` flag, `true` when
/// absent or not a boolean.
pub open spec fn spec_include_recursive(item: JsonView) -> bool {
    match jget(item, "recursive"@) {
        Some(JsonView::Bool(b)) => b,
        _ => true,
    }
}

/// Whether an include entry's own includes are followed.
pub fn include_recursive(item: &Json) -> (r: bool)
    ensures
        r == spec_include_recursive(item@),
{
    match lookup(item, "recursive") {
        Some(Json::Bool(b)) => *b,
        _ => true,
    }
}

// ---- include_script ---------------------------------------------------------------------

/// Python's `repr()` for a str, enough for a path: single-quoted with `\` and `'` escaped.
pub open spec fn spec_py_repr(s: Seq<char>) -> Seq<char> {
    seq!['\''] + py_escaped(s) + seq!['\'']
}

/// `s` with `\` and `'` backslash-escaped.
pub open spec fn py_escaped(s: Seq<char>) -> Seq<char>
    decreases s.len(),
{
    if s.len() == 0 {
        seq![]
    } else if s.last() == '\\' || s.last() == '\'' {
        py_escaped(s.drop_last()) + seq!['\\', s.last()]
    } else {
        py_escaped(s.drop_last()).push(s.last())
    }
}

/// Python's `repr()` for a str, enough for a path.
pub fn py_repr(s: &str) -> (r: String)
    ensures
        r@ == spec_py_repr(s@),
{
    let cs = chars_of(s);
    let mut out = String::new();
    push_char(&mut out, '\'');
    let mut i: usize = 0;
    while i < cs.len()
        invariant
            i <= cs.len(),
            cs@ == s@,
            out@ == seq!['\''] + py_escaped(cs@.take(i as int)),
        decreases cs.len() - i,
    {
        let c = cs[i];
        if c == '\\' || c == '\'' {
            push_char(&mut out, '\\');
        }
        push_char(&mut out, c);
        assert(cs@.take(i + 1).drop_last() =~= cs@.take(i as int));
        assert(out@ =~= seq!['\''] + py_escaped(cs@.take(i + 1)));
        i += 1;
    }
    push_char(&mut out, '\'');
    assert(cs@.take(cs@.len() as int) =~= cs@);
    out
}

/// The `script` of an include_script entry (`pkg:tasks` or `pkg:tasks(x)`).
pub fn script_reference(item: &Json) -> (r: Option<String>)
    ensures
        opt_chars(r) == as_str(jget(item@, "script"@)),
{
    str_member(item, "script")
}

/// The `cwd` of an include_script entry, relative to the project root.
pub fn script_cwd(item: &Json) -> (r: Option<String>)
    ensures
        opt_chars(r) == as_str(jget(item@, "cwd"@)),
{
    str_member(item, "cwd")
}

/// The Python one-liner poe runs for an include_script reference `module:call`: it imports
/// `module` with stdout diverted to stderr, then prints `json.dumps(module.call)`, calling
/// `call` with no arguments when it is a bare name. `src_dir`, when given, is put on
/// `sys.path` first. `None` when the reference has no `:`.
#[verifier::opaque]
pub open spec fn spec_script_source(reference: Seq<char>, src_dir: Option<Seq<char>>) -> Option<
    Seq<char>,
> {
    if reference.contains(':') {
        let k = choose|k: int| 0 <= k < reference.len() && reference[k] == ':' && !reference.subrange(0, k).contains(':');
        let module = reference.subrange(0, k);
        let call = reference.subrange(k + 1, reference.len() as int);
        let call = if call.contains('(') {
            call
        } else {
            call + "()"@
        };
        let src_append = match src_dir {
            Some(d) => "sys.path.append("@ + spec_py_repr(d) + ");"@,
            None => seq![],
        };
        Some(
            "import os,sys,json;environ=os.environ;from importlib import import_module as _i;"@
                + src_append + "_o=sys.stdout;sys.stdout=sys.stderr;_m = _i('"@ + module
                + "');sys.stdout=_o;print(json.dumps(_m."@ + call + "));"@,
        )
    } else {
        None
    }
}

/// The Python one-liner poe runs for `reference`, kept identical to poe's so the two can
/// never disagree about what an `include_script` means.
pub fn script_source(reference: &str, src_dir: Option<&str>) -> (r: Option<String>)
    ensures
        opt_chars(r) == spec_script_source(reference@, match src_dir {
            Some(d) => Some(d@),
            None => None,
        }),
{
    reveal(spec_script_source);
    let cs = chars_of(reference);
    let k = match find_char(&cs, ':') {
        Some(k) => k,
        None => return None,
    };
    proof {
        let j = choose|j: int| 0 <= j < reference@.len() && reference@[j] == ':' && !reference@.subrange(0, j).contains(':');
        assert(reference@[k as int] == ':');
        if j < k {
            assert(reference@.subrange(0, k as int)[j] == ':');
        } else if j > k {
            assert(reference@.subrange(0, j)[k as int] == ':');
        }
    }
    let module = string_of_range(&cs, 0, k);
    let call_chars = string_of_range(&cs, k + 1, cs.len());
    let cc = chars_of(call_chars.as_str());
    let call = if find_char(&cc, '(').is_some() {
        call_chars
    } else {
        concat(call_chars.as_str(), "()")
    };
    let mut out = String::from_str(
        "import os,sys,json;environ=os.environ;from importlib import import_module as _i;",
    );
    match src_dir {
        Some(d) => {
            out.append("sys.path.append(");
            out.append(py_repr(d).as_str());
            out.append(");");
        },
        None => {},
    }
    out.append("_o=sys.stdout;sys.stdout=sys.stderr;_m = _i('");
    out.append(module.as_str());
    out.append("');sys.stdout=_o;print(json.dumps(_m.");
    out.append(call.as_str());
    out.append("));");
    Some(out)
}

} // verus!
