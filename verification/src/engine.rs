//! The completion engine: one pure function answering every Tab press, for every shell.
//!
//! The two shell scripts used to carry this logic twice over, once in bash and once in
//! PowerShell, which is how they drifted. Here it exists once and the shells keep only a
//! shim. Nothing in this module touches stdout, argv, the environment or the disk: the
//! task table is handed in, so a completion is `(request, table) -> Directive`.

use vstd::prelude::*;

use crate::parse::{
    DIRECTORY_OPTIONS, EXECUTORS, EXECUTOR_OPTIONS, GLOBAL_OPTIONS, exclusions, in_list, inline_name,
    inline_value, is_directory_option, is_option, is_option_word, parse, spec_exclusions, spec_parse,
    split_inline, strs, takes_global_value, OPTIONS_WITH_VALUES, first_equals, scan_globals, lemma_first_equals,
};
use crate::resolve::{Resolved, Task, TaskArg, TaskArgView, TaskView, args_view, tasks_view};
use crate::text::{concat, is_prefix_of, owned, starts_with, starts_with_char, str_eq, chars_of, find_char};

verus! {

/// Which shell asked. The engine is shell-agnostic in its logic; this exists only because
/// PowerShell renders [`ItemKind`] and bash discards it, and because the two hand their
/// command line over in different shapes before reaching this module.
#[derive(Debug, Clone, Copy, PartialEq, Eq, Structural)]
pub enum Shell {
    Bash,
    PowerShell,
}

/// How a completion should be presented. bash ignores this entirely; PowerShell maps it
/// onto `CompletionResultType`, which produces the icon and grouping in its popup.
#[derive(Debug, Clone, Copy, PartialEq, Eq, Structural)]
pub enum ItemKind {
    /// A poe task — the thing you are actually trying to run.
    Command,
    /// An option name such as `--verbose` or `--mode`.
    Param,
    /// A value for an option or positional, e.g. one of a `choices` list.
    Value,
}

/// The token of each kind in the wire format's fourth column.
pub open spec fn wire_token(kind: ItemKind) -> Seq<char> {
    match kind {
        ItemKind::Command => "command"@,
        ItemKind::Param => "param"@,
        ItemKind::Value => "value"@,
    }
}

impl ItemKind {
    /// The token written into the wire format's fourth column. Kept next to the enum so the
    /// spelling can never drift from the shims that parse it.
    pub fn as_wire(self) -> (r: &'static str)
        ensures
            r@ == wire_token(self),
    {
        match self {
            ItemKind::Command => "command",
            ItemKind::Param => "param",
            ItemKind::Value => "value",
        }
    }
}

/// One completion candidate.
///
/// `value` and `display` differ only for inline `--opt=value` completion, where the whole
/// word must be replaced (`--mode=fast`) but the user should see just the part they are
/// choosing (`fast`).
#[derive(Debug, Clone, PartialEq, Eq)]
pub struct Item {
    /// Text inserted into the command line.
    pub value: String,
    /// Text shown in the completion popup.
    pub display: String,
    /// Longer help shown alongside, where the shell supports it.
    pub tooltip: String,
    pub kind: ItemKind,
}

/// The mathematical content of an [`Item`].
pub ghost struct ItemView {
    pub value: Seq<char>,
    pub display: Seq<char>,
    pub tooltip: Seq<char>,
    pub kind: ItemKind,
}

impl View for Item {
    type V = ItemView;

    open spec fn view(&self) -> ItemView {
        ItemView {
            value: self.value@,
            display: self.display@,
            tooltip: self.tooltip@,
            kind: self.kind,
        }
    }
}

/// The candidate that shows exactly what it inserts.
pub open spec fn plain(value: Seq<char>, tooltip: Seq<char>, kind: ItemKind) -> ItemView {
    ItemView { value, display: value, tooltip, kind }
}

impl Item {
    /// The common case: the candidate shows exactly what it inserts.
    pub fn plain(value: &str, tooltip: &str, kind: ItemKind) -> (r: Self)
        ensures
            r@ == plain(value@, tooltip@, kind),
    {
        Item { value: owned(value), display: owned(value), tooltip: owned(tooltip), kind }
    }
}

/// What the shim should do with the answer.
#[derive(Debug, Clone, PartialEq, Eq)]
pub enum Directive {
    /// Concrete candidates, already filtered by the request's prefix.
    Items(Vec<Item>),
    /// "Complete directories here" — the shell does it, keeping its own quoting rules.
    Dirs,
    /// "Complete files here", likewise.
    Files,
}

/// The mathematical content of a [`Directive`].
pub ghost enum DirectiveView {
    Items(Seq<ItemView>),
    Dirs,
    Files,
}

/// The views of a list of items.
pub open spec fn items_view(items: Seq<Item>) -> Seq<ItemView> {
    items.map_values(|i: Item| i@)
}

impl View for Directive {
    type V = DirectiveView;

    open spec fn view(&self) -> DirectiveView {
        match self {
            Directive::Items(items) => DirectiveView::Items(items_view(items@)),
            Directive::Dirs => DirectiveView::Dirs,
            Directive::Files => DirectiveView::Files,
        }
    }
}

/// Everything the engine needs to answer one Tab press.
#[derive(Debug, Clone)]
pub struct Request {
    pub shell: Shell,
    /// argv-style words, where `words[0]` is always the command itself (`poe`).
    pub words: Vec<String>,
    /// Index of the word being completed. Equals `words.len()` when the user has typed a
    /// space and is starting a fresh word, so every read of this must be bounds-checked.
    pub cword: usize,
    /// The text of that word to the left of the cursor: what candidates must start with.
    pub prefix: String,
    /// Project directory to resolve tasks from.
    pub root: String,
}

// ---- the specification -----------------------------------------------------------------

/// `s` starts with `-`.
pub open spec fn dashed(s: Seq<char>) -> bool {
    s.len() > 0 && s[0] == '-'
}

/// `n` spells the executor option.
pub open spec fn is_executor_option(n: Seq<char>) -> bool {
    strs(EXECUTOR_OPTIONS@).contains(n)
}

/// Tasks whose name starts with `prefix`, as commands.
pub open spec fn task_items(tasks: Seq<TaskView>, prefix: Seq<char>) -> Seq<ItemView>
    decreases tasks.len(),
{
    if tasks.len() == 0 {
        seq![]
    } else {
        let before = task_items(tasks.drop_last(), prefix);
        let name = tasks.last().name;
        if is_prefix_of(prefix, name) {
            before.push(plain(name, "Task: "@ + name, ItemKind::Command))
        } else {
            before
        }
    }
}

/// `values` that start with `prefix`, as plain candidates with one tooltip.
pub open spec fn value_items(values: Seq<Seq<char>>, prefix: Seq<char>, tooltip: Seq<char>) -> Seq<
    ItemView,
>
    decreases values.len(),
{
    if values.len() == 0 {
        seq![]
    } else {
        let before = value_items(values.drop_last(), prefix, tooltip);
        let v = values.last();
        if is_prefix_of(prefix, v) {
            before.push(plain(v, tooltip, ItemKind::Value))
        } else {
            before
        }
    }
}

/// `values` that start with `typed`, each inserted as the whole word `name=value` and shown
/// as just the value.
pub open spec fn inline_items(
    name: Seq<char>,
    values: Seq<Seq<char>>,
    typed: Seq<char>,
    tooltip: Seq<char>,
) -> Seq<ItemView>
    decreases values.len(),
{
    if values.len() == 0 {
        seq![]
    } else {
        let before = inline_items(name, values.drop_last(), typed, tooltip);
        let v = values.last();
        if is_prefix_of(typed, v) {
            before.push(
                ItemView { value: name + "="@ + v, display: v, tooltip, kind: ItemKind::Value },
            )
        } else {
            before
        }
    }
}

/// An option typed before the cursor (at an index in `1..cword`) makes `opt` redundant.
pub open spec fn globally_excluded(words: Seq<Seq<char>>, cword: int, opt: Seq<char>) -> bool {
    exists|j: int|
        1 <= j < cword && j < words.len() && is_option_word(words[j]) && spec_exclusions(
            inline_name(#[trigger] words[j]),
        ).contains(opt)
}

/// Global options that start with `prefix` and are not made redundant by one already typed.
pub open spec fn global_option_items(
    opts: Seq<Seq<char>>,
    words: Seq<Seq<char>>,
    cword: int,
    prefix: Seq<char>,
) -> Seq<ItemView>
    decreases opts.len(),
{
    if opts.len() == 0 {
        seq![]
    } else {
        let before = global_option_items(opts.drop_last(), words, cword, prefix);
        let o = opts.last();
        if is_prefix_of(prefix, o) && !globally_excluded(words, cword, o) {
            before.push(plain(o, o, ItemKind::Param))
        } else {
            before
        }
    }
}

/// The global option whose value the word at `cword` is, scanning from index `i`.
pub open spec fn pending_global(words: Seq<Seq<char>>, cword: int, i: int) -> Option<Seq<char>>
    decreases words.len() + 2 - i,
{
    if i < 0 || i >= cword || i >= words.len() {
        None
    } else {
        let w = words[i];
        if is_option_word(w) && inline_value(w) is None && (is_directory_option(w)
            || takes_global_value(w)) {
            if i + 1 == cword {
                Some(w)
            } else {
                pending_global(words, cword, i + 2)
            }
        } else {
            pending_global(words, cword, i + 1)
        }
    }
}

/// Tooltip of an executor value.
pub open spec fn executor_tooltip() -> Seq<char> {
    "Executor"@
}

/// Completion of the value of the global `opt`.
pub open spec fn global_value(opt: Seq<char>, prefix: Seq<char>, tasks: Seq<TaskView>) -> DirectiveView {
    if is_directory_option(opt) {
        DirectiveView::Dirs
    } else if is_executor_option(opt) {
        DirectiveView::Items(value_items(strs(EXECUTORS@), prefix, executor_tooltip()))
    } else if opt == "-h"@ || opt == "--help"@ {
        DirectiveView::Items(task_items(tasks, prefix))
    } else {
        // `-X` / `--executor-opt` take free-form `key=value` text: nothing to offer.
        DirectiveView::Items(seq![])
    }
}

/// Completion before the task: globals, their values, or the task name itself.
pub open spec fn global_mode(
    words: Seq<Seq<char>>,
    cword: int,
    prefix: Seq<char>,
    tasks: Seq<TaskView>,
) -> DirectiveView {
    match pending_global(words, cword, 1) {
        Some(opt) => global_value(opt, prefix, tasks),
        None => if dashed(prefix) && prefix.contains('=') {
            let name = inline_name(prefix);
            let typed = inline_value(prefix)->0;
            if is_directory_option(name) {
                DirectiveView::Dirs
            } else if is_executor_option(name) {
                DirectiveView::Items(inline_items(name, strs(EXECUTORS@), typed, executor_tooltip()))
            } else {
                DirectiveView::Items(seq![])
            }
        } else if dashed(prefix) {
            DirectiveView::Items(global_option_items(strs(GLOBAL_OPTIONS@), words, cword, prefix))
        } else {
            DirectiveView::Items(task_items(tasks, prefix))
        },
    }
}

/// The first task named `name`.
pub open spec fn find_task(tasks: Seq<TaskView>, name: Seq<char>, i: int) -> Option<TaskView>
    decreases tasks.len() - i,
{
    if i < 0 || i >= tasks.len() {
        None
    } else if tasks[i].name == name {
        Some(tasks[i])
    } else {
        find_task(tasks, name, i + 1)
    }
}

/// The argument is a positional placeholder rather than an option.
pub open spec fn is_positional(a: TaskArgView) -> bool {
    a.kind == "positional"@
}

/// The option consumes the following word (every kind but `boolean`).
pub open spec fn takes_value(a: TaskArgView) -> bool {
    a.kind != "boolean"@
}

/// Index of the first non-positional argument, from `i` on, that has the spelling `name`.
pub open spec fn option_arg(args: Seq<TaskArgView>, name: Seq<char>, i: int) -> Option<int>
    decreases args.len() - i,
{
    if i < 0 || i >= args.len() {
        None
    } else if !is_positional(args[i]) && args[i].options.contains(name) {
        Some(i)
    } else {
        option_arg(args, name, i + 1)
    }
}

/// Scan of the task's arguments from word `j` to the cursor: the argument whose value the
/// word at `cword` is, if any, and how many positional words come before the cursor
/// (`count` of them already seen).
pub open spec fn arg_scan(
    words: Seq<Seq<char>>,
    cword: int,
    j: int,
    args: Seq<TaskArgView>,
    count: int,
) -> (Option<int>, int)
    decreases words.len() + 2 - j,
{
    if j < 0 || j >= cword || j >= words.len() {
        (None, count)
    } else {
        let w = words[j];
        if is_option_word(w) {
            match option_arg(args, inline_name(w), 0) {
                Some(a) => if inline_value(w) is None && takes_value(args[a]) {
                    if j + 1 == cword {
                        (Some(a), count)
                    } else {
                        arg_scan(words, cword, j + 2, args, count)
                    }
                } else {
                    arg_scan(words, cword, j + 1, args, count)
                },
                None => arg_scan(words, cword, j + 1, args, count),
            }
        } else {
            arg_scan(words, cword, j + 1, args, count + 1)
        }
    }
}

/// Some spelling of `a` is used by an option word between the task at `pos` and the cursor.
pub open spec fn arg_used(words: Seq<Seq<char>>, pos: int, cword: int, a: TaskArgView) -> bool {
    exists|j: int|
        pos < j < cword && j < words.len() && is_option_word(words[j]) && a.options.contains(
            inline_name(#[trigger] words[j]),
        )
}

/// The task's options not used yet that start with `prefix`, with their help as tooltip.
pub open spec fn task_option_items(
    args: Seq<TaskArgView>,
    words: Seq<Seq<char>>,
    pos: int,
    cword: int,
    prefix: Seq<char>,
) -> Seq<ItemView>
    decreases args.len(),
{
    if args.len() == 0 {
        seq![]
    } else {
        let before = task_option_items(args.drop_last(), words, pos, cword, prefix);
        let a = args.last();
        if !is_positional(a) && !arg_used(words, pos, cword, a) {
            before + option_spellings(a.options, prefix, a.help)
        } else {
            before
        }
    }
}

/// The spellings that start with `prefix`, as parameters.
pub open spec fn option_spellings(opts: Seq<Seq<char>>, prefix: Seq<char>, help: Seq<char>) -> Seq<
    ItemView,
>
    decreases opts.len(),
{
    if opts.len() == 0 {
        seq![]
    } else {
        let before = option_spellings(opts.drop_last(), prefix, help);
        let o = opts.last();
        if is_prefix_of(prefix, o) {
            before.push(plain(o, help, ItemKind::Param))
        } else {
            before
        }
    }
}

/// The positional arguments, in order.
pub open spec fn positionals(args: Seq<TaskArgView>) -> Seq<TaskArgView>
    decreases args.len(),
{
    if args.len() == 0 {
        seq![]
    } else if is_positional(args.last()) {
        positionals(args.drop_last()).push(args.last())
    } else {
        positionals(args.drop_last())
    }
}

/// Completion of a value for `a`: its choices, or the shell's files when it has none.
pub open spec fn choices_or_files(a: TaskArgView, prefix: Seq<char>) -> DirectiveView {
    if a.choices.len() > 0 {
        DirectiveView::Items(value_items(a.choices, prefix, a.help))
    } else {
        DirectiveView::Files
    }
}

/// Completion after the task at `pos`, whose arguments are `args`.
pub open spec fn task_mode(
    words: Seq<Seq<char>>,
    cword: int,
    prefix: Seq<char>,
    pos: int,
    args: Seq<TaskArgView>,
) -> DirectiveView {
    let (pending, count) = arg_scan(words, cword, pos + 1, args, 0);
    match pending {
        Some(a) => choices_or_files(args[a], prefix),
        None => if dashed(prefix) && prefix.contains('=') {
            let name = inline_name(prefix);
            match option_arg(args, name, 0) {
                Some(a) => if !takes_value(args[a]) {
                    DirectiveView::Items(seq![])
                } else if args[a].choices.len() > 0 {
                    DirectiveView::Items(
                        inline_items(name, args[a].choices, inline_value(prefix)->0, args[a].help),
                    )
                } else {
                    DirectiveView::Files
                },
                None => DirectiveView::Items(seq![]),
            }
        } else if dashed(prefix) {
            DirectiveView::Items(task_option_items(args, words, pos, cword, prefix))
        } else {
            let ps = positionals(args);
            if count < ps.len() {
                choices_or_files(ps[count], prefix)
            } else {
                DirectiveView::Files
            }
        },
    }
}

/// The answer to one Tab press on `words` with the cursor on `cword`, `prefix` typed so
/// far, and `tasks` the project's table.
pub open spec fn spec_complete(
    words: Seq<Seq<char>>,
    cword: int,
    prefix: Seq<char>,
    tasks: Seq<TaskView>,
) -> DirectiveView {
    let p = spec_parse(words, cword);
    if p.after_separator {
        DirectiveView::Files
    } else {
        match p.task_position {
            Some(pos) => if pos < cword {
                match find_task(tasks, words[pos], 0) {
                    Some(t) => task_mode(words, cword, prefix, pos, t.args),
                    None => DirectiveView::Items(seq![]),
                }
            } else {
                global_mode(words, cword, prefix, tasks)
            },
            None => global_mode(words, cword, prefix, tasks),
        }
    }
}

/// The task table a completion sees: the resolved tasks, or none when resolution failed.
pub open spec fn table_of(resolved: Option<&Resolved>) -> Seq<TaskView> {
    match resolved {
        Some(r) => tasks_view(r.tasks@),
        None => seq![],
    }
}

// ---- the implementation ----------------------------------------------------------------

/// Owned copies of a list of string slices.
fn owned_list(list: &[&str]) -> (r: Vec<String>)
    ensures
        r.deep_view() == strs(list@),
{
    let mut out: Vec<String> = Vec::new();
    let mut i: usize = 0;
    while i < list.len()
        invariant
            i <= list.len(),
            out.deep_view() == strs(list@.take(i as int)),
        decreases list.len() - i,
    {
        let ghost before = out.deep_view();
        out.push(owned(list[i]));
        assert(strs(list@.take(i + 1)) =~= strs(list@.take(i as int)).push(list@[i as int]@));
        assert(out.deep_view() =~= before.push(list@[i as int]@));
        i += 1;
    }
    assert(list@.take(list@.len() as int) =~= list@);
    out
}

/// Tasks whose name starts with `prefix`.
fn collect_task_items(tasks: &Vec<Task>, prefix: &str) -> (r: Vec<Item>)
    ensures
        items_view(r@) == task_items(tasks_view(tasks@), prefix@),
{
    let ghost tv = tasks_view(tasks@);
    let mut out: Vec<Item> = Vec::new();
    let mut i: usize = 0;
    while i < tasks.len()
        invariant
            i <= tasks.len(),
            tv == tasks_view(tasks@),
            items_view(out@) == task_items(tv.take(i as int), prefix@),
        decreases tasks.len() - i,
    {
        let ghost before = items_view(out@);
        let name = tasks[i].name.as_str();
        assert(tv.take(i + 1).drop_last() =~= tv.take(i as int));
        assert(tv.take(i + 1).last() == tv[i as int]);
        if starts_with(name, prefix) {
            let tooltip = concat("Task: ", name);
            out.push(Item::plain(name, tooltip.as_str(), ItemKind::Command));
            assert(items_view(out@) =~= before.push(
                plain(name@, "Task: "@ + name@, ItemKind::Command),
            ));
        }
        i += 1;
    }
    assert(tv.take(tasks@.len() as int) =~= tv);
    out
}

/// `values` starting with `prefix`, as plain values.
fn collect_value_items(values: &Vec<String>, prefix: &str, tooltip: &str) -> (r: Vec<Item>)
    ensures
        items_view(r@) == value_items(values.deep_view(), prefix@, tooltip@),
{
    let ghost vs = values.deep_view();
    let mut out: Vec<Item> = Vec::new();
    let mut i: usize = 0;
    while i < values.len()
        invariant
            i <= values.len(),
            vs == values.deep_view(),
            items_view(out@) == value_items(vs.take(i as int), prefix@, tooltip@),
        decreases values.len() - i,
    {
        let ghost before = items_view(out@);
        let v = values[i].as_str();
        assert(vs.take(i + 1).drop_last() =~= vs.take(i as int));
        assert(vs.take(i + 1).last() == v@);
        if starts_with(v, prefix) {
            out.push(Item::plain(v, tooltip, ItemKind::Value));
            assert(items_view(out@) =~= before.push(plain(v@, tooltip@, ItemKind::Value)));
        }
        i += 1;
    }
    assert(vs.take(values@.len() as int) =~= vs);
    out
}

/// `values` starting with `typed`, inserted as `name=value`.
fn collect_inline_items(name: &str, values: &Vec<String>, typed: &str, tooltip: &str) -> (r: Vec<
    Item,
>)
    ensures
        items_view(r@) == inline_items(name@, values.deep_view(), typed@, tooltip@),
{
    let ghost vs = values.deep_view();
    let head = concat(name, "=");
    let mut out: Vec<Item> = Vec::new();
    let mut i: usize = 0;
    while i < values.len()
        invariant
            i <= values.len(),
            vs == values.deep_view(),
            head@ == name@ + "="@,
            items_view(out@) == inline_items(name@, vs.take(i as int), typed@, tooltip@),
        decreases values.len() - i,
    {
        let ghost before = items_view(out@);
        let v = values[i].as_str();
        assert(vs.take(i + 1).drop_last() =~= vs.take(i as int));
        assert(vs.take(i + 1).last() == v@);
        if starts_with(v, typed) {
            let item = Item {
                value: concat(head.as_str(), v),
                display: owned(v),
                tooltip: owned(tooltip),
                kind: ItemKind::Value,
            };
            out.push(item);
            assert(items_view(out@) =~= before.push(
                ItemView {
                    value: name@ + "="@ + v@,
                    display: v@,
                    tooltip: tooltip@,
                    kind: ItemKind::Value,
                },
            ));
        }
        i += 1;
    }
    assert(vs.take(values@.len() as int) =~= vs);
    out
}

/// Whether an option typed in `words[1..cword]` makes `opt` redundant.
fn is_globally_excluded(words: &Vec<String>, cword: usize, opt: &str) -> (r: bool)
    ensures
        r == globally_excluded(words.deep_view(), cword as int, opt@),
{
    let ghost ws = words.deep_view();
    let mut j: usize = 1;
    while j < words.len() && j < cword
        invariant
            1 <= j,
            ws == words.deep_view(),
            forall|k: int|
                1 <= k < j && k < cword && k < ws.len() ==> !(is_option_word(ws[k])
                    && spec_exclusions(inline_name(#[trigger] ws[k])).contains(opt@)),
        decreases words.len() - j,
    {
        let w = words[j].as_str();
        assert(ws[j as int] == w@);
        if is_option(w) {
            let (name, _) = split_inline(w);
            let excluded = exclusions(name);
            if in_list(excluded.as_slice(), opt) {
                return true;
            }
        }
        j += 1;
    }
    false
}

/// Global options offered for `prefix`.
fn collect_global_options(words: &Vec<String>, cword: usize, prefix: &str) -> (r: Vec<Item>)
    ensures
        items_view(r@) == global_option_items(
            strs(GLOBAL_OPTIONS@),
            words.deep_view(),
            cword as int,
            prefix@,
        ),
{
    let ghost os = strs(GLOBAL_OPTIONS@);
    let ghost ws = words.deep_view();
    let mut out: Vec<Item> = Vec::new();
    let mut i: usize = 0;
    while i < GLOBAL_OPTIONS.len()
        invariant
            i <= GLOBAL_OPTIONS@.len(),
            os == strs(GLOBAL_OPTIONS@),
            ws == words.deep_view(),
            items_view(out@) == global_option_items(os.take(i as int), ws, cword as int, prefix@),
        decreases GLOBAL_OPTIONS@.len() - i,
    {
        let ghost before = items_view(out@);
        let o = GLOBAL_OPTIONS[i];
        assert(os.take(i + 1).drop_last() =~= os.take(i as int));
        assert(os.take(i + 1).last() == o@);
        if starts_with(o, prefix) && !is_globally_excluded(words, cword, o) {
            out.push(Item::plain(o, o, ItemKind::Param));
            assert(items_view(out@) =~= before.push(plain(o@, o@, ItemKind::Param)));
        }
        i += 1;
    }
    assert(os.take(GLOBAL_OPTIONS@.len() as int) =~= os);
    out
}

/// Index of the global option whose value the word at `cword` is.
fn find_pending_global(words: &Vec<String>, cword: usize) -> (r: Option<usize>)
    ensures
        match r {
            Some(k) => k < words.len() && pending_global(words.deep_view(), cword as int, 1) == Some(
                words.deep_view()[k as int],
            ),
            None => pending_global(words.deep_view(), cword as int, 1) is None,
        },
{
    let ghost ws = words.deep_view();
    let mut i: usize = 1;
    while i < words.len() && i < cword
        invariant
            1 <= i,
            ws == words.deep_view(),
            pending_global(ws, cword as int, 1) == pending_global(ws, cword as int, i as int),
        decreases words.len() - i,
    {
        let w = words[i].as_str();
        assert(ws[i as int] == w@);
        if is_option(w) {
            let (name, inline) = split_inline(w);
            if inline.is_none() && (in_list(DIRECTORY_OPTIONS.as_slice(), name) || in_list(
                OPTIONS_WITH_VALUES.as_slice(),
                name,
            )) {
                assert(name@ == w@);
                if i + 1 == cword {
                    return Some(i);
                }
                if i + 2 >= words.len() {
                    assert(pending_global(ws, cword as int, i + 2) is None);
                    return None;
                }
                i += 2;
                continue;
            }
        }
        i += 1;
    }
    None
}

/// Completion before the task.
fn complete_globals(words: &Vec<String>, cword: usize, prefix: &str, tasks: &Vec<Task>) -> (r:
    Directive)
    ensures
        r@ == global_mode(words.deep_view(), cword as int, prefix@, tasks_view(tasks@)),
{
    let ghost ws = words.deep_view();
    match find_pending_global(words, cword) {
        Some(k) => {
            let opt = words[k].as_str();
            assert(ws[k as int] == opt@);
            let ghost tv = tasks_view(tasks@);
            assert(global_mode(ws, cword as int, prefix@, tv) == global_value(opt@, prefix@, tv));
            if in_list(DIRECTORY_OPTIONS.as_slice(), opt) {
                Directive::Dirs
            } else if in_list(EXECUTOR_OPTIONS.as_slice(), opt) {
                let executors = owned_list(EXECUTORS.as_slice());
                Directive::Items(collect_value_items(&executors, prefix, "Executor"))
            } else if str_eq(opt, "-h") || str_eq(opt, "--help") {
                Directive::Items(collect_task_items(tasks, prefix))
            } else {
                no_items()
            }
        },
        None => {
            let pc = chars_of(prefix);
            let dashed_prefix = starts_with_char(prefix, '-');
            let has_equals = find_char(&pc, '=').is_some();
            if dashed_prefix && has_equals {
                let (name, inline) = split_inline(prefix);
                let typed = match inline {
                    Some(v) => v,
                    None => "",
                };
                if in_list(DIRECTORY_OPTIONS.as_slice(), name) {
                    Directive::Dirs
                } else if in_list(EXECUTOR_OPTIONS.as_slice(), name) {
                    let executors = owned_list(EXECUTORS.as_slice());
                    Directive::Items(collect_inline_items(name, &executors, typed, "Executor"))
                } else {
                    no_items()
                }
            } else if dashed_prefix {
                Directive::Items(collect_global_options(words, cword, prefix))
            } else {
                Directive::Items(collect_task_items(tasks, prefix))
            }
        },
    }
}

/// A directive with no candidates.
fn no_items() -> (r: Directive)
    ensures
        r@ == DirectiveView::Items(seq![]),
{
    let v: Vec<Item> = Vec::new();
    assert(items_view(v@) =~= seq![]);
    Directive::Items(v)
}

/// Whether `s` is one of `list`.
fn in_strings(list: &Vec<String>, s: &str) -> (r: bool)
    ensures
        r == list.deep_view().contains(s@),
{
    let ghost ls = list.deep_view();
    let mut i: usize = 0;
    while i < list.len()
        invariant
            i <= list.len(),
            ls == list.deep_view(),
            forall|j: int| 0 <= j < i ==> ls[j] != s@,
        decreases list.len() - i,
    {
        assert(ls[i as int] == list[i as int]@);
        if str_eq(list[i].as_str(), s) {
            return true;
        }
        i += 1;
    }
    false
}

/// Index of the first task named `name`.
fn find_task_index(tasks: &Vec<Task>, name: &str) -> (r: Option<usize>)
    ensures
        match r {
            Some(i) => i < tasks.len() && find_task(tasks_view(tasks@), name@, 0) == Some(
                tasks_view(tasks@)[i as int],
            ),
            None => find_task(tasks_view(tasks@), name@, 0) is None,
        },
{
    let ghost tv = tasks_view(tasks@);
    let mut i: usize = 0;
    while i < tasks.len()
        invariant
            i <= tasks.len(),
            tv == tasks_view(tasks@),
            find_task(tv, name@, 0) == find_task(tv, name@, i as int),
        decreases tasks.len() - i,
    {
        if str_eq(tasks[i].name.as_str(), name) {
            return Some(i);
        }
        i += 1;
    }
    None
}

/// Whether the argument is a positional placeholder.
fn arg_is_positional(a: &TaskArg) -> (r: bool)
    ensures
        r == is_positional(a@),
{
    str_eq(a.kind.as_str(), "positional")
}

/// Whether the option consumes the following word.
fn arg_takes_value(a: &TaskArg) -> (r: bool)
    ensures
        r == takes_value(a@),
{
    !str_eq(a.kind.as_str(), "boolean")
}

/// Index of the first non-positional argument spelled `name`.
fn find_option_arg(args: &Vec<TaskArg>, name: &str) -> (r: Option<usize>)
    ensures
        match r {
            Some(i) => i < args.len() && option_arg(args_view(args@), name@, 0) == Some(i as int),
            None => option_arg(args_view(args@), name@, 0) is None,
        },
{
    let ghost av = args_view(args@);
    let mut i: usize = 0;
    while i < args.len()
        invariant
            i <= args.len(),
            av == args_view(args@),
            option_arg(av, name@, 0) == option_arg(av, name@, i as int),
        decreases args.len() - i,
    {
        assert(av[i as int] == args[i as int]@);
        if !arg_is_positional(&args[i]) && in_strings(&args[i].options, name) {
            return Some(i);
        }
        i += 1;
    }
    None
}

/// The argument whose value the cursor word is, and how many positionals precede it.
fn scan_args(words: &Vec<String>, cword: usize, pos: usize, args: &Vec<TaskArg>) -> (r: (
    Option<usize>,
    usize,
))
    requires
        pos < words.len(),
    ensures
        ({
            let (pending, count) = arg_scan(words.deep_view(), cword as int, pos + 1, args_view(args@), 0);
            &&& r.1 == count
            &&& match r.0 {
                Some(a) => a < args.len() && pending == Some(a as int),
                None => pending is None,
            }
        }),
{
    let ghost ws = words.deep_view();
    let ghost av = args_view(args@);
    let mut j: usize = pos + 1;
    let mut count: usize = 0;
    while j < words.len() && j < cword
        invariant
            pos < j,
            count <= j,
            ws == words.deep_view(),
            av == args_view(args@),
            arg_scan(ws, cword as int, pos + 1, av, 0) == arg_scan(ws, cword as int, j as int, av, count as int),
        decreases words.len() - j,
    {
        let w = words[j].as_str();
        assert(ws[j as int] == w@);
        if is_option(w) {
            let (name, inline) = split_inline(w);
            match find_option_arg(args, name) {
                Some(a) => {
                    assert(av[a as int] == args[a as int]@);
                    if inline.is_none() && arg_takes_value(&args[a]) {
                        if j + 1 == cword {
                            return (Some(a), count);
                        }
                        if j + 2 >= words.len() {
                            assert(arg_scan(ws, cword as int, j + 2, av, count as int) == (None::<int>, count as int));
                            return (None, count);
                        }
                        j += 2;
                        continue;
                    }
                },
                None => {},
            }
        } else {
            count += 1;
        }
        j += 1;
    }
    (None, count)
}

/// Some spelling of `a` is used by an option between the task and the cursor.
fn is_arg_used(words: &Vec<String>, pos: usize, cword: usize, a: &TaskArg) -> (r: bool)
    ensures
        r == arg_used(words.deep_view(), pos as int, cword as int, a@),
{
    let ghost ws = words.deep_view();
    if pos >= words.len() {
        return false;
    }
    let mut j: usize = pos + 1;
    while j < words.len() && j < cword
        invariant
            pos < j,
            ws == words.deep_view(),
            forall|k: int|
                pos < k < j && k < cword && k < ws.len() ==> !(is_option_word(ws[k])
                    && a@.options.contains(inline_name(#[trigger] ws[k]))),
        decreases words.len() - j,
    {
        let w = words[j].as_str();
        assert(ws[j as int] == w@);
        if is_option(w) {
            let (name, _) = split_inline(w);
            if in_strings(&a.options, name) {
                return true;
            }
        }
        j += 1;
    }
    false
}

/// The spellings in `opts` starting with `prefix`, as parameters.
fn collect_spellings(opts: &Vec<String>, prefix: &str, help: &str) -> (r: Vec<Item>)
    ensures
        items_view(r@) == option_spellings(opts.deep_view(), prefix@, help@),
{
    let ghost os = opts.deep_view();
    let mut out: Vec<Item> = Vec::new();
    let mut i: usize = 0;
    while i < opts.len()
        invariant
            i <= opts.len(),
            os == opts.deep_view(),
            items_view(out@) == option_spellings(os.take(i as int), prefix@, help@),
        decreases opts.len() - i,
    {
        let ghost before = items_view(out@);
        let o = opts[i].as_str();
        assert(os.take(i + 1).drop_last() =~= os.take(i as int));
        assert(os.take(i + 1).last() == o@);
        if starts_with(o, prefix) {
            out.push(Item::plain(o, help, ItemKind::Param));
            assert(items_view(out@) =~= before.push(plain(o@, help@, ItemKind::Param)));
        }
        i += 1;
    }
    assert(os.take(opts@.len() as int) =~= os);
    out
}

/// The task's unused options starting with `prefix`.
fn collect_task_options(
    args: &Vec<TaskArg>,
    words: &Vec<String>,
    pos: usize,
    cword: usize,
    prefix: &str,
) -> (r: Vec<Item>)
    ensures
        items_view(r@) == task_option_items(
            args_view(args@),
            words.deep_view(),
            pos as int,
            cword as int,
            prefix@,
        ),
{
    let ghost av = args_view(args@);
    let ghost ws = words.deep_view();
    let mut out: Vec<Item> = Vec::new();
    let mut i: usize = 0;
    while i < args.len()
        invariant
            i <= args.len(),
            av == args_view(args@),
            ws == words.deep_view(),
            items_view(out@) == task_option_items(av.take(i as int), ws, pos as int, cword as int, prefix@),
        decreases args.len() - i,
    {
        let ghost before = items_view(out@);
        let a = &args[i];
        assert(av.take(i + 1).drop_last() =~= av.take(i as int));
        assert(av.take(i + 1).last() == a@);
        if !arg_is_positional(a) && !is_arg_used(words, pos, cword, a) {
            let mut spellings = collect_spellings(&a.options, prefix, a.help.as_str());
            let ghost extra = items_view(spellings@);
            out.append(&mut spellings);
            assert(items_view(out@) =~= before + extra);
        }
        i += 1;
    }
    assert(av.take(args@.len() as int) =~= av);
    out
}

/// Index of the `k`-th positional argument, if there are that many.
fn nth_positional(args: &Vec<TaskArg>, k: usize) -> (r: Option<usize>)
    ensures
        match r {
            Some(i) => i < args.len() && k < positionals(args_view(args@)).len()
                && positionals(args_view(args@))[k as int] == args_view(args@)[i as int],
            None => k >= positionals(args_view(args@)).len(),
        },
{
    let ghost av = args_view(args@);
    let mut found: Vec<usize> = Vec::new();
    let mut i: usize = 0;
    while i < args.len()
        invariant
            i <= args.len(),
            av == args_view(args@),
            found.len() == positionals(av.take(i as int)).len(),
            forall|t: int|
                #![trigger found[t]]
                0 <= t < found.len() ==> found[t] < i && positionals(av.take(i as int))[t]
                    == av[found[t] as int],
        decreases args.len() - i,
    {
        let ghost prev = positionals(av.take(i as int));
        assert(av.take(i + 1).drop_last() =~= av.take(i as int));
        assert(av.take(i + 1).last() == av[i as int]);
        assert(av[i as int] == args[i as int]@);
        let ghost old_found = found@;
        if arg_is_positional(&args[i]) {
            found.push(i);
            assert(positionals(av.take(i + 1)) == prev.push(av[i as int]));
        } else {
            assert(positionals(av.take(i + 1)) == prev);
        }
        assert forall|t: int| 0 <= t < found.len() implies found[t] < i + 1 && positionals(
            av.take(i + 1),
        )[t] == av[found[t] as int] by {
            if t < old_found.len() {
                assert(found[t] == old_found[t]);
                assert(prev[t] == av[old_found[t] as int]);
            }
        }
        i += 1;
    }
    assert(av.take(args@.len() as int) =~= av);
    if k < found.len() {
        assert(positionals(av)[k as int] == av[found[k as int] as int]);
        Some(found[k])
    } else {
        None
    }
}

/// Completion of a value for `a`.
fn complete_value(a: &TaskArg, prefix: &str) -> (r: Directive)
    ensures
        r@ == choices_or_files(a@, prefix@),
{
    if a.choices.len() > 0 {
        Directive::Items(collect_value_items(&a.choices, prefix, a.help.as_str()))
    } else {
        Directive::Files
    }
}

/// Completion after the task at `pos`.
fn complete_task_args(
    words: &Vec<String>,
    cword: usize,
    prefix: &str,
    pos: usize,
    args: &Vec<TaskArg>,
) -> (r: Directive)
    requires
        pos < words.len(),
    ensures
        r@ == task_mode(words.deep_view(), cword as int, prefix@, pos as int, args_view(args@)),
{
    let ghost av = args_view(args@);
    let (pending, count) = scan_args(words, cword, pos, args);
    match pending {
        Some(a) => {
            assert(av[a as int] == args[a as int]@);
            complete_value(&args[a], prefix)
        },
        None => {
            let pc = chars_of(prefix);
            let dashed_prefix = starts_with_char(prefix, '-');
            let has_equals = find_char(&pc, '=').is_some();
            if dashed_prefix && has_equals {
                let (name, inline) = split_inline(prefix);
                let typed = match inline {
                    Some(v) => v,
                    None => "",
                };
                match find_option_arg(args, name) {
                    Some(a) => {
                        assert(av[a as int] == args[a as int]@);
                        if !arg_takes_value(&args[a]) {
                            no_items()
                        } else if args[a].choices.len() > 0 {
                            Directive::Items(
                                collect_inline_items(
                                    name,
                                    &args[a].choices,
                                    typed,
                                    args[a].help.as_str(),
                                ),
                            )
                        } else {
                            Directive::Files
                        }
                    },
                    None => no_items(),
                }
            } else if dashed_prefix {
                Directive::Items(collect_task_options(args, words, pos, cword, prefix))
            } else {
                match nth_positional(args, count) {
                    Some(i) => {
                        assert(av[i as int] == args[i as int]@);
                        complete_value(&args[i], prefix)
                    },
                    None => Directive::Files,
                }
            }
        },
    }
}

/// Every candidate inserts text that starts with `prefix`.
pub open spec fn all_prefixed(items: Seq<ItemView>, prefix: Seq<char>) -> bool {
    forall|i: int| 0 <= i < items.len() ==> is_prefix_of(prefix, #[trigger] items[i].value)
}

proof fn lemma_task_items_prefixed(tasks: Seq<TaskView>, prefix: Seq<char>)
    ensures
        all_prefixed(task_items(tasks, prefix), prefix),
    decreases tasks.len(),
{
    if tasks.len() > 0 {
        lemma_task_items_prefixed(tasks.drop_last(), prefix);
    }
}

proof fn lemma_value_items_prefixed(values: Seq<Seq<char>>, prefix: Seq<char>, tooltip: Seq<char>)
    ensures
        all_prefixed(value_items(values, prefix, tooltip), prefix),
    decreases values.len(),
{
    if values.len() > 0 {
        lemma_value_items_prefixed(values.drop_last(), prefix, tooltip);
    }
}

proof fn lemma_global_option_items_prefixed(
    opts: Seq<Seq<char>>,
    words: Seq<Seq<char>>,
    cword: int,
    prefix: Seq<char>,
)
    ensures
        all_prefixed(global_option_items(opts, words, cword, prefix), prefix),
    decreases opts.len(),
{
    if opts.len() > 0 {
        lemma_global_option_items_prefixed(opts.drop_last(), words, cword, prefix);
    }
}

proof fn lemma_option_spellings_prefixed(opts: Seq<Seq<char>>, prefix: Seq<char>, help: Seq<char>)
    ensures
        all_prefixed(option_spellings(opts, prefix, help), prefix),
    decreases opts.len(),
{
    if opts.len() > 0 {
        lemma_option_spellings_prefixed(opts.drop_last(), prefix, help);
    }
}

proof fn lemma_task_option_items_prefixed(
    args: Seq<TaskArgView>,
    words: Seq<Seq<char>>,
    pos: int,
    cword: int,
    prefix: Seq<char>,
)
    ensures
        all_prefixed(task_option_items(args, words, pos, cword, prefix), prefix),
    decreases args.len(),
{
    if args.len() > 0 {
        let a = args.last();
        let before = task_option_items(args.drop_last(), words, pos, cword, prefix);
        lemma_task_option_items_prefixed(args.drop_last(), words, pos, cword, prefix);
        lemma_option_spellings_prefixed(a.options, prefix, a.help);
        let extra = option_spellings(a.options, prefix, a.help);
        let all = before + extra;
        assert forall|i: int| 0 <= i < all.len() implies is_prefix_of(
            prefix,
            #[trigger] all[i].value,
        ) by {
            if i >= before.len() {
                assert(all[i] == extra[i - before.len()]);
            }
        }
    }
}

proof fn lemma_inline_items_prefixed(
    name: Seq<char>,
    values: Seq<Seq<char>>,
    typed: Seq<char>,
    tooltip: Seq<char>,
)
    ensures
        all_prefixed(inline_items(name, values, typed, tooltip), name + "="@ + typed),
    decreases values.len(),
{
    if values.len() > 0 {
        lemma_inline_items_prefixed(name, values.drop_last(), typed, tooltip);
        let v = values.last();
        if is_prefix_of(typed, v) {
            let head = name + "="@;
            assert((head + v).subrange(0, (head + typed).len() as int) =~= head + typed);
        }
    }
}

/// A word with an `=` is its option name, the `=`, and its inline value.
proof fn lemma_inline_parts(w: Seq<char>)
    requires
        w.contains('='),
    ensures
        w == inline_name(w) + "="@ + inline_value(w)->0,
{
    reveal_strlit("=");
    let k = choose|k: int| 0 <= k < w.len() && w[k] == '=';
    assert(exists|i: int| 0 <= i < w.len() && w[i] == '=' && !w.subrange(0, i).contains('=')) by {
        lemma_first_occurrence(w, '=', k);
    }
    let f = first_equals(w);
    assert(w =~= w.subrange(0, f) + "="@ + w.subrange(f + 1, w.len() as int));
}

/// An element that occurs in `s` has a first occurrence.
proof fn lemma_first_occurrence(s: Seq<char>, c: char, k: int)
    requires
        0 <= k < s.len(),
        s[k] == c,
    ensures
        exists|i: int| 0 <= i < s.len() && s[i] == c && !s.subrange(0, i).contains(c),
    decreases k,
{
    if s.subrange(0, k).contains(c) {
        let j = choose|j: int| 0 <= j < k && s.subrange(0, k)[j] == c;
        lemma_first_occurrence(s, c, j);
    } else {
        assert(0 <= k < s.len() && s[k] == c && !s.subrange(0, k).contains(c));
    }
}

/// The task found by the scan sits inside `words`.
proof fn lemma_scan_globals_in_bounds(words: Seq<Seq<char>>, i: int, dir: Option<Seq<char>>)
    requires
        0 <= i,
    ensures
        match scan_globals(words, i, dir).1 {
            Some(p) => i <= p < words.len(),
            None => true,
        },
    decreases words.len() + 2 - i,
{
    if i < words.len() {
        let w = words[i];
        lemma_scan_globals_in_bounds(words, i + 1, dir);
        lemma_scan_globals_in_bounds(words, i + 2, dir);
        if i + 1 < words.len() {
            lemma_scan_globals_in_bounds(words, i + 2, Some(words[i + 1]));
        }
        if w.contains('=') {
            lemma_scan_globals_in_bounds(words, i + 1, inline_value(w));
        }
    }
}

proof fn lemma_option_arg_in_bounds(args: Seq<TaskArgView>, name: Seq<char>, i: int)
    ensures
        option_arg(args, name, i) matches Some(a) ==> 0 <= a < args.len(),
    decreases args.len() - i,
{
    if 0 <= i < args.len() {
        lemma_option_arg_in_bounds(args, name, i + 1);
    }
}

proof fn lemma_arg_scan_in_bounds(
    words: Seq<Seq<char>>,
    cword: int,
    j: int,
    args: Seq<TaskArgView>,
    count: int,
)
    ensures
        arg_scan(words, cword, j, args, count).0 matches Some(a) ==> 0 <= a < args.len(),
    decreases words.len() + 2 - j,
{
    if 0 <= j < cword && j < words.len() {
        let w = words[j];
        lemma_option_arg_in_bounds(args, inline_name(w), 0);
        lemma_arg_scan_in_bounds(words, cword, j + 1, args, count);
        lemma_arg_scan_in_bounds(words, cword, j + 2, args, count);
        lemma_arg_scan_in_bounds(words, cword, j + 1, args, count + 1);
    }
}

/// A value-completion directive only offers prefixed values.
proof fn lemma_choices_prefixed(a: TaskArgView, prefix: Seq<char>)
    ensures
        choices_or_files(a, prefix) matches DirectiveView::Items(items) ==> all_prefixed(items, prefix),
{
    lemma_value_items_prefixed(a.choices, prefix, a.help);
}

proof fn lemma_global_mode_prefixed(
    words: Seq<Seq<char>>,
    cword: int,
    prefix: Seq<char>,
    tasks: Seq<TaskView>,
)
    ensures
        global_mode(words, cword, prefix, tasks) matches DirectiveView::Items(items) ==> all_prefixed(
            items,
            prefix,
        ),
{
    lemma_task_items_prefixed(tasks, prefix);
    lemma_value_items_prefixed(strs(EXECUTORS@), prefix, executor_tooltip());
    lemma_global_option_items_prefixed(strs(GLOBAL_OPTIONS@), words, cword, prefix);
    assert(all_prefixed(seq![], prefix));
    if dashed(prefix) && prefix.contains('=') {
        lemma_inline_parts(prefix);
        lemma_inline_items_prefixed(
            inline_name(prefix),
            strs(EXECUTORS@),
            inline_value(prefix)->0,
            executor_tooltip(),
        );
    }
}

proof fn lemma_task_mode_prefixed(
    words: Seq<Seq<char>>,
    cword: int,
    prefix: Seq<char>,
    pos: int,
    args: Seq<TaskArgView>,
)
    ensures
        task_mode(words, cword, prefix, pos, args) matches DirectiveView::Items(items) ==> all_prefixed(
            items,
            prefix,
        ),
{
    let (pending, count) = arg_scan(words, cword, pos + 1, args, 0);
    lemma_arg_scan_in_bounds(words, cword, pos + 1, args, 0);
    lemma_option_arg_in_bounds(args, inline_name(prefix), 0);
    assert(all_prefixed(seq![], prefix));
    match pending {
        Some(a) => {
            lemma_choices_prefixed(args[a], prefix);
        },
        None => {
            if dashed(prefix) && prefix.contains('=') {
                lemma_inline_parts(prefix);
                if let Some(a) = option_arg(args, inline_name(prefix), 0) {
                    lemma_inline_items_prefixed(
                        inline_name(prefix),
                        args[a].choices,
                        inline_value(prefix)->0,
                        args[a].help,
                    );
                }
            } else if dashed(prefix) {
                lemma_task_option_items_prefixed(args, words, pos, cword, prefix);
            } else {
                let ps = positionals(args);
                if count < ps.len() {
                    lemma_choices_prefixed(ps[count], prefix);
                }
            }
        },
    }
}

/// Every candidate [`spec_complete`] offers starts with the typed prefix.
pub proof fn lemma_complete_prefixed(
    words: Seq<Seq<char>>,
    cword: int,
    prefix: Seq<char>,
    tasks: Seq<TaskView>,
)
    ensures
        spec_complete(words, cword, prefix, tasks) matches DirectiveView::Items(items) ==> all_prefixed(
            items,
            prefix,
        ),
{
    lemma_global_mode_prefixed(words, cword, prefix, tasks);
    assert(all_prefixed(seq![], prefix));
    let p = spec_parse(words, cword);
    if let Some(pos) = p.task_position {
        if let Some(t) = find_task(tasks, words[pos], 0) {
            lemma_task_mode_prefixed(words, cword, prefix, pos, t.args);
        }
    }
}

/// Every spelling offered is one of `opts`.
proof fn lemma_option_spellings_from(opts: Seq<Seq<char>>, prefix: Seq<char>, help: Seq<char>)
    ensures
        forall|i: int|
            0 <= i < option_spellings(opts, prefix, help).len() ==> opts.contains(
                #[trigger] option_spellings(opts, prefix, help)[i].value,
            ),
    decreases opts.len(),
{
    if opts.len() > 0 {
        lemma_option_spellings_from(opts.drop_last(), prefix, help);
        let before = option_spellings(opts.drop_last(), prefix, help);
        assert forall|i: int| 0 <= i < before.len() implies opts.contains(
            #[trigger] before[i].value,
        ) by {
            let o = before[i].value;
            assert(opts.drop_last().contains(o));
            let q = choose|q: int| 0 <= q < opts.drop_last().len() && opts.drop_last()[q] == o;
            assert(opts[q] == o);
        }
        assert(opts[opts.len() - 1] == opts.last());
    }
}

/// Every option offered after the task is a spelling of an argument not used yet.
proof fn lemma_task_option_items_from(
    args: Seq<TaskArgView>,
    words: Seq<Seq<char>>,
    pos: int,
    cword: int,
    prefix: Seq<char>,
)
    ensures
        forall|i: int|
            0 <= i < task_option_items(args, words, pos, cword, prefix).len() ==> exists|m: int|
                0 <= m < args.len() && !arg_used(words, pos, cword, args[m])
                    && args[m].options.contains(
                    #[trigger] task_option_items(args, words, pos, cword, prefix)[i].value,
                ),
    decreases args.len(),
{
    if args.len() > 0 {
        let rest = args.drop_last();
        let a = args.last();
        let before = task_option_items(rest, words, pos, cword, prefix);
        let all = task_option_items(args, words, pos, cword, prefix);
        lemma_task_option_items_from(rest, words, pos, cword, prefix);
        lemma_option_spellings_from(a.options, prefix, a.help);
        let extra = option_spellings(a.options, prefix, a.help);
        assert forall|i: int| 0 <= i < all.len() implies exists|m: int|
            0 <= m < args.len() && !arg_used(words, pos, cword, args[m])
                && args[m].options.contains(#[trigger] all[i].value) by {
            if i < before.len() {
                assert(all[i] == before[i]);
                let m = choose|m: int|
                    0 <= m < rest.len() && !arg_used(words, pos, cword, rest[m])
                        && rest[m].options.contains(#[trigger] before[i].value);
                assert(args[m] == rest[m]);
            } else {
                assert(all[i] == extra[i - before.len()]);
                assert(args[args.len() - 1] == a);
            }
        }
    }
}

/// An option given in its inline form counts as used: a word `name=value` between the task
/// at `pos` and the cursor, where `name` is a spelling of argument `k`, marks that argument
/// as used, and the task's option list then offers none of its spellings (as long as no
/// other argument shares one of them).
pub proof fn lemma_inline_option_marks_used(
    args: Seq<TaskArgView>,
    words: Seq<Seq<char>>,
    pos: int,
    cword: int,
    prefix: Seq<char>,
    k: int,
    j: int,
    name: Seq<char>,
    value: Seq<char>,
)
    requires
        0 <= k < args.len(),
        0 <= pos < j < cword,
        j < words.len(),
        words[j] == name + "="@ + value,
        args[k].options.contains(name),
        name.len() > 0,
        name[0] == '-',
        !name.contains('='),
    ensures
        arg_used(words, pos, cword, args[k]),
        (forall|m: int, o: Seq<char>|
            #![trigger args[m].options.contains(o)]
            0 <= m < args.len() && m != k && args[m].options.contains(o) ==> !args[k].options.contains(
                o,
            )) ==> forall|i: int|
            0 <= i < task_option_items(args, words, pos, cword, prefix).len()
                ==> !args[k].options.contains(
                #[trigger] task_option_items(args, words, pos, cword, prefix)[i].value,
            ),
{
    reveal_strlit("=");
    reveal_strlit("--");
    let w = words[j];
    let n = name.len() as int;
    assert(w[n] == '=');
    assert(w.subrange(0, n) =~= name);
    lemma_first_equals(w, n);
    assert(inline_name(w) == name);
    assert(w[0] == '-');
    assert(w != "--"@) by {
        if w == "--"@ {
            assert(w.len() == 2);
            assert(w[1] == '-');
        }
    }
    assert(is_option_word(w));
    assert(arg_used(words, pos, cword, args[k]));
    lemma_task_option_items_from(args, words, pos, cword, prefix);
    let items = task_option_items(args, words, pos, cword, prefix);
    if forall|m: int, o: Seq<char>|
        #![trigger args[m].options.contains(o)]
        0 <= m < args.len() && m != k && args[m].options.contains(o) ==> !args[k].options.contains(
            o,
        ) {
        assert forall|i: int| 0 <= i < items.len() implies !args[k].options.contains(
            #[trigger] items[i].value,
        ) by {
            let m = choose|m: int|
                0 <= m < args.len() && !arg_used(words, pos, cword, args[m])
                    && args[m].options.contains(#[trigger] items[i].value);
            assert(m != k);
        }
    }
}

/// What stands under the cursor never counts as used: the word being typed is not yet on the
/// command line, so replacing it changes neither which arguments are used nor which options
/// the task's option list offers.
pub proof fn lemma_cursor_word_not_used(
    args: Seq<TaskArgView>,
    words: Seq<Seq<char>>,
    pos: int,
    cword: int,
    prefix: Seq<char>,
    w: Seq<char>,
)
    requires
        0 <= pos,
        0 <= cword < words.len(),
    ensures
        forall|a: TaskArgView|
            #[trigger] arg_used(words.update(cword, w), pos, cword, a) == arg_used(
                words,
                pos,
                cword,
                a,
            ),
        task_option_items(args, words.update(cword, w), pos, cword, prefix) == task_option_items(
            args,
            words,
            pos,
            cword,
            prefix,
        ),
    decreases args.len(),
{
    let u = words.update(cword, w);
    assert forall|a: TaskArgView| #[trigger]
        arg_used(u, pos, cword, a) == arg_used(words, pos, cword, a) by {
        if arg_used(u, pos, cword, a) {
            let j = choose|j: int|
                pos < j < cword && j < u.len() && is_option_word(u[j]) && a.options.contains(
                    inline_name(#[trigger] u[j]),
                );
            assert(u[j] == words[j]);
        }
        if arg_used(words, pos, cword, a) {
            let j = choose|j: int|
                pos < j < cword && j < words.len() && is_option_word(words[j])
                    && a.options.contains(inline_name(#[trigger] words[j]));
            assert(u[j] == words[j]);
        }
    }
    if args.len() > 0 {
        lemma_cursor_word_not_used(args.drop_last(), words, pos, cword, prefix, w);
    }
}

/// The answer to a request: nothing when the project could not be resolved (an
/// unresolvable project has nothing to offer), else the completion against its table.
pub open spec fn spec_answer(
    words: Seq<Seq<char>>,
    cword: int,
    prefix: Seq<char>,
    resolved: Option<&Resolved>,
) -> DirectiveView {
    match resolved {
        Some(r) => spec_complete(words, cword, prefix, tasks_view(r.tasks@)),
        None => DirectiveView::Items(seq![]),
    }
}

/// Answer one completion request against the project's task table.
///
/// `resolved` is `None` when the project could not be resolved; the engine then offers
/// nothing, and never reports an error. The answer depends on the words, the cursor and the
/// prefix only, never on which shell asked.
pub fn complete(req: &Request, resolved: Option<&Resolved>) -> (r: Directive)
    ensures
        r@ == spec_answer(req.words.deep_view(), req.cword as int, req.prefix@, resolved),
        r@ matches DirectiveView::Items(items) ==> all_prefixed(items, req.prefix@),
{
    let tasks: &Vec<Task> = match resolved {
        Some(r) => &r.tasks,
        None => {
            return no_items();
        },
    };
    assert(tasks_view(tasks@) =~= table_of(resolved));
    let ghost ws = req.words.deep_view();
    proof {
        lemma_scan_globals_in_bounds(ws, 1, None);
        lemma_complete_prefixed(ws, req.cword as int, req.prefix@, table_of(resolved));
    }
    let p = parse(&req.words, req.cword);
    if p.after_separator {
        return Directive::Files;
    }
    match p.task_position {
        Some(pos) => {
            if pos < req.cword {
                let name = req.words[pos].as_str();
                assert(ws[pos as int] == name@);
                match find_task_index(tasks, name) {
                    Some(t) => complete_task_args(
                        &req.words,
                        req.cword,
                        req.prefix.as_str(),
                        pos,
                        &tasks[t].args,
                    ),
                    None => no_items(),
                }
            } else {
                complete_globals(&req.words, req.cword, req.prefix.as_str(), tasks)
            }
        },
        None => complete_globals(&req.words, req.cword, req.prefix.as_str(), tasks),
    }
}

} // verus!
