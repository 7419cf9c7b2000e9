//! Resolving the task table the way poe does, one step at a time: the project's own
//! `[tool.poe.tasks]`, then the `include`d TOML files depth first, then what each
//! `include_script` printed.
//!
//! Reading a file, running Python and parsing their text are the caller's. A [`Resolver`]
//! asks for the next include file, is told what it held, and decides everything else:
//! which entries are followed and against which directory, which tasks are added, and which
//! files a cache must watch. A file already on the current include chain is not entered
//! again, so cyclic includes terminate.

use vstd::prelude::*;

use crate::config::{json_tree, parse_json, parse_toml, toml_tree};
use crate::format::{trim, trimmed};
use crate::json::{Json, JsonView, as_str, jget};
use crate::paths::{
    ends_with, is_join, join_path, joined_all, lemma_join_keeps_free, lemma_joined_all_push,
    lemma_joined_none, lemma_plain_is_simple, parent_dir, plain_component, simple_relative, tidy_dir,
};
use crate::process::CapturedOutput;
use crate::resolve::{
    Resolved,
    Task,
    TaskView,
    add_tasks,
    distinct_listed,
    expand_include_path,
    include_items,
    include_path,
    include_recursive,
    include_script_items,
    jsons_view,
    lemma_add_tasks_names,
    names,
    normalize_script_output,
    poe_section,
    script_cwd,
    script_reference,
    script_source,
    spec_add_tasks,
    spec_expand_include_path,
    spec_include_items,
    spec_include_recursive,
    spec_include_script_items,
    spec_poe_section,
    spec_script_output,
    spec_script_source,
    tasks_view,
};
use crate::text::{owned, str_eq};

verus! {

/// One level of the include walk: the entries of one file's `include`, the directory they
/// resolve against, how many have been handed out, and the identity of the file they came
/// from (`None` for the project file).
struct Frame {
    dir: String,
    items: Vec<Json>,
    next: usize,
    key: Option<String>,
}

/// The mathematical content of one level of the include walk.
pub ghost struct FrameView {
    pub dir: Seq<char>,
    pub items: Seq<JsonView>,
    pub next: int,
    pub key: Option<Seq<char>>,
}

impl View for Frame {
    type V = FrameView;

    closed spec fn view(&self) -> FrameView {
        FrameView {
            dir: self.dir@,
            items: jsons_view(self.items@),
            next: self.next as int,
            key: match self.key {
                Some(k) => Some(k@),
                None => None,
            },
        }
    }
}

spec fn frames_view(f: Seq<Frame>) -> Seq<FrameView> {
    f.map_values(|x: Frame| x@)
}

/// An include entry handed out and not answered yet.
struct Pending {
    path: String,
    rel: String,
    dir: String,
    recursive: bool,
}

/// The mathematical content of the include entry awaiting its file: the file's path, the
/// entry's `path` with its variables expanded, the directory it resolved against, and
/// whether its own includes are followed.
pub ghost struct PendingView {
    pub path: Seq<char>,
    pub rel: Seq<char>,
    pub dir: Seq<char>,
    pub recursive: bool,
}

/// The entries of a level not handed out yet.
pub open spec fn remaining(f: FrameView) -> nat {
    if 0 <= f.next < f.items.len() {
        (f.items.len() - f.next) as nat
    } else {
        0
    }
}

/// A bound on the steps the walk has left.
pub open spec fn walk_measure(walk: Seq<FrameView>) -> nat
    decreases walk.len(),
{
    if walk.len() == 0 {
        0
    } else {
        walk_measure(walk.drop_last()) + 1 + remaining(walk.last())
    }
}

/// `f` with one more entry handed out.
pub open spec fn stepped(f: FrameView) -> FrameView {
    FrameView { dir: f.dir, items: f.items, next: f.next + 1, key: f.key }
}

/// The walk after handing out its next include entry that has a `path`, with that entry
/// and the directory it resolves against: the deepest level with entries left goes first,
/// and a level whose entries are all handed out leaves the walk (its file leaves the chain).
/// `None` when no such entry is left.
pub open spec fn advance(walk: Seq<FrameView>) -> (Seq<FrameView>, Option<(JsonView, Seq<char>)>)
    decreases walk_measure(walk),
{
    if walk.len() == 0 {
        (walk, None)
    } else {
        let top = walk.last();
        if !(0 <= top.next < top.items.len()) {
            advance(walk.drop_last())
        } else {
            let moved = walk.drop_last().push(stepped(top));
            let item = top.items[top.next];
            if as_str(jget(item, "path"@)) is Some {
                (moved, Some((item, top.dir)))
            } else {
                proof {
                    assert(moved.drop_last() =~= walk.drop_last());
                }
                advance(moved)
            }
        }
    }
}

/// Whether the file identified by `key` is on the current include chain.
pub open spec fn on_chain(walk: Seq<FrameView>, key: Seq<char>) -> bool {
    exists|i: int| 0 <= i < walk.len() && #[trigger] walk[i].key == Some(key)
}

/// What starting from the project file `pyproject` in `root`, whose `tool.poe` table is
/// `poe`, makes: its own tasks first, its file as the only source, then a walk over its
/// `include` entries, with its `include_script` entries kept for later.
pub open spec fn started(r: Resolver, root: Seq<char>, pyproject: Seq<char>, poe: JsonView) -> bool {
    &&& r.root() == root
    &&& r.project_file() == pyproject
    &&& r.tasks() == spec_add_tasks(poe, seq![]).0
    &&& r.sources() == seq![pyproject]
    &&& r.walk() == seq![FrameView { dir: root, items: spec_include_items(poe), next: 0, key: None }]
    &&& r.scripts() == spec_include_script_items(poe)
    &&& r.pending() is None
}

/// What answering the pending include entry with the file identified by `key` whose parsed
/// content is `doc` (`None` when it could not be read or parsed) makes of `before`: nothing
/// changes when no entry awaits an answer, the file is on the chain, or there is no
/// content; otherwise the file becomes a source, its tasks not yet taken are added, and,
/// unless the entry says `recursive = false`, its own includes are walked next against its
/// directory. The entry no longer awaits an answer either way.
pub open spec fn delivered(before: Resolver, after: Resolver, key: Seq<char>, doc: Option<JsonView>) -> bool {
    &&& after.pending() is None
    &&& after.root() == before.root()
    &&& after.project_file() == before.project_file()
    &&& after.scripts() == before.scripts()
    &&& {
        let p = before.pending()->0;
        if before.pending() is None || on_chain(before.walk(), key) || doc is None {
            &&& after.tasks() == before.tasks()
            &&& after.sources() == before.sources()
            &&& after.walk() == before.walk()
        } else {
            let poe = spec_poe_section(doc->0);
            &&& after.tasks() == before.tasks() + spec_add_tasks(
                poe,
                names(before.tasks()),
            ).0
            &&& after.sources() == before.sources().push(p.path)
            &&& if p.recursive {
                &&& after.walk().len() == before.walk().len() + 1
                &&& after.walk().drop_last() == before.walk()
                &&& after.walk().last().items == spec_include_items(poe)
                &&& after.walk().last().next == 0
                &&& after.walk().last().key == Some(key)
                &&& forall|d: Seq<char>, c: Seq<char>|
                    #![trigger d + seq!['/'] + c]
                    tidy_dir(d) && plain_component(c) && p.path == d + seq!['/'] + c
                        ==> after.walk().last().dir == d
            } else {
                after.walk() == before.walk()
            }
        }
    }
}

/// The task table being resolved, and where the include walk stands.
pub struct Resolver {
    root: String,
    project_file: String,
    resolved: Resolved,
    taken: Vec<String>,
    frames: Vec<Frame>,
    scripts: Vec<Json>,
    pending: Option<Pending>,
}

impl Resolver {
    /// The project root, which `${POE_ROOT}` expands to.
    pub closed spec fn root(&self) -> Seq<char> {
        self.root@
    }

    /// The project's own file, the first source.
    pub closed spec fn project_file(&self) -> Seq<char> {
        self.project_file@
    }

    /// The tasks resolved so far, in the order poe lists them.
    pub closed spec fn tasks(&self) -> Seq<TaskView> {
        tasks_view(self.resolved.tasks@)
    }

    /// The names already taken.
    pub closed spec fn taken(&self) -> Seq<Seq<char>> {
        self.taken.deep_view()
    }

    /// Every file read so far, in the order read.
    pub closed spec fn sources(&self) -> Seq<Seq<char>> {
        self.resolved.sources.deep_view()
    }

    /// The include walk, outermost level first.
    pub closed spec fn walk(&self) -> Seq<FrameView> {
        frames_view(self.frames@)
    }

    /// The `include_script` entries of the project file.
    pub closed spec fn scripts(&self) -> Seq<JsonView> {
        jsons_view(self.scripts@)
    }

    /// The include entry awaiting its file, if any.
    pub closed spec fn pending(&self) -> Option<PendingView> {
        match self.pending {
            Some(p) => Some(PendingView { path: p.path@, rel: p.rel@, dir: p.dir@, recursive: p.recursive }),
            None => None,
        }
    }

    /// The names taken are those of the tasks, each listed by poe and none twice.
    pub open spec fn wf(&self) -> bool {
        &&& self.taken() == names(self.tasks())
        &&& distinct_listed(names(self.tasks()))
        &&& self.sources().len() > 0
        &&& self.sources()[0] == self.project_file()
    }

    /// Start from the project file (at `pyproject`, in the project at `root`) and its
    /// `tool.poe` table: its own tasks first, then a walk over its `include` entries.
    pub fn start(root: &str, pyproject: &str, poe: &Json) -> (r: Resolver)
        ensures
            r.wf(),
            started(r, root@, pyproject@, poe@),
    {
        let mut tasks: Vec<Task> = Vec::new();
        let mut taken: Vec<String> = Vec::new();
        proof {
            assert(names(tasks_view(tasks@)) =~= seq![]);
            assert(taken.deep_view() =~= seq![]);
            lemma_add_tasks_names(poe@, tasks_view(tasks@));
        }
        add_tasks(&mut tasks, poe, &mut taken);
        proof {
            assert(tasks_view(tasks@) =~= seq![] + spec_add_tasks(poe@, seq![]).0);
        }
        let frame = Frame { dir: owned(root), items: include_items(poe), next: 0, key: None };
        let sources = vec![owned(pyproject)];
        let r = Resolver {
            root: owned(root),
            project_file: owned(pyproject),
            resolved: Resolved { tasks, sources },
            taken,
            frames: vec![frame],
            scripts: include_script_items(poe),
            pending: None,
        };
        proof {
            assert(r.sources() =~= seq![pyproject@]);
            assert(r.walk() =~= seq![
                FrameView { dir: root@, items: spec_include_items(poe@), next: 0, key: None },
            ]);
        }
        r
    }

    /// Start from the text of the project file (at `pyproject`, in the project at `root`):
    /// `None` when the text is not valid TOML, otherwise as [`Resolver::start`] on its
    /// `tool.poe` table (empty when there is none).
    pub fn start_text(root: &str, pyproject: &str, text: &str) -> (r: Option<Resolver>)
        ensures
            r is Some <==> toml_tree(text@) is Some,
            r is Some ==> r->0.wf() && started(
                r->0,
                root@,
                pyproject@,
                spec_poe_section(toml_tree(text@)->0),
            ),
    {
        match parse_toml(text) {
            Some(doc) => Some(Resolver::start(root, pyproject, &poe_section(&doc))),
            None => None,
        }
    }

    /// The next include file to read, or `None` when the walk is over. The entry it came
    /// from awaits [`Resolver::deliver`].
    pub fn next_include(&mut self) -> (r: Option<String>)
        requires
            old(self).wf(),
        ensures
            final(self).wf(),
            final(self).walk() == advance(old(self).walk()).0,
            final(self).tasks() == old(self).tasks(),
            final(self).taken() == old(self).taken(),
            final(self).sources() == old(self).sources(),
            final(self).root() == old(self).root(),
            final(self).project_file() == old(self).project_file(),
            final(self).scripts() == old(self).scripts(),
            match advance(old(self).walk()).1 {
                Some((item, dir)) => {
                    let rel = spec_expand_include_path(
                        as_str(jget(item, "path"@))->0,
                        old(self).root(),
                        dir,
                    );
                    &&& r is Some
                    &&& final(self).pending() == Some(
                        PendingView {
                            path: r->0@,
                            rel,
                            dir,
                            recursive: spec_include_recursive(item),
                        },
                    )
                    &&& simple_relative(rel) && !dir.contains('?') ==> is_join(r->0@, dir, rel)
                },
                None => r is None && final(self).pending() is None,
            },
    {
        let ghost goal = advance(self.walk());
        loop
            invariant
                advance(frames_view(self.frames@)) == goal,
                self.wf(),
                self.tasks() == old(self).tasks(),
                self.taken() == old(self).taken(),
                self.sources() == old(self).sources(),
                self.root() == old(self).root(),
                self.project_file() == old(self).project_file(),
                self.scripts() == old(self).scripts(),
                goal == advance(old(self).walk()),
            decreases walk_measure(frames_view(self.frames@)),
        {
            let ghost fv = frames_view(self.frames@);
            if self.frames.len() == 0 {
                self.pending = None;
                return None;
            }
            let mut top = self.frames.pop().unwrap();
            proof {
                assert(frames_view(self.frames@) =~= fv.drop_last());
                assert(top@ == fv.last());
            }
            if top.next < top.items.len() {
                let i = top.next;
                top.next = i + 1;
                proof {
                    assert(top@ == stepped(fv.last()));
                    assert(jsons_view(top.items@)[i as int] == top.items@[i as int]@);
                }
                let path = include_path(&top.items[i]);
                let recursive = include_recursive(&top.items[i]);
                let dir = owned(top.dir.as_str());
                self.frames.push(top);
                proof {
                    assert(frames_view(self.frames@) =~= fv.drop_last().push(stepped(fv.last())));
                    assert(fv.drop_last().push(stepped(fv.last())).drop_last() =~= fv.drop_last());
                }
                match path {
                    Some(rel) => {
                        let expanded = expand_include_path(
                            rel.as_str(),
                            self.root.as_str(),
                            dir.as_str(),
                        );
                        let full = join_path(dir.as_str(), expanded.as_str());
                        let out = owned(full.as_str());
                        self.pending = Some(Pending { path: full, rel: expanded, dir, recursive });
                        return Some(out);
                    },
                    None => {},
                }
            }
        }
    }

    /// Whether the file identified by `key` is on the current include chain; entering it
    /// again would loop.
    pub fn is_open(&self, key: &str) -> (r: bool)
        ensures
            r == on_chain(self.walk(), key@),
    {
        let mut i: usize = 0;
        while i < self.frames.len()
            invariant
                i <= self.frames.len(),
                forall|j: int| 0 <= j < i ==> self.walk()[j].key != Some(key@),
            decreases self.frames.len() - i,
        {
            assert(self.walk()[i as int] == self.frames@[i as int]@);
            match &self.frames[i].key {
                Some(k) => {
                    if str_eq(k.as_str(), key) {
                        return true;
                    }
                },
                None => {},
            }
            i += 1;
        }
        false
    }

    /// The answer for the include entry handed out last: `key` identifies its file (its
    /// canonical path), `doc` is the file parsed, `None` when it could not be read or parsed
    /// (a missing include is skipped, as in poe). A file on the current chain is skipped
    /// too, and so is an answer when no entry awaits one. Otherwise the file becomes a source, its tasks not yet taken are added, and,
    /// unless the entry says `recursive = false`, its own includes are walked next,
    /// against its directory.
    pub fn deliver(&mut self, key: &str, doc: Option<&Json>)
        requires
            old(self).wf(),
        ensures
            final(self).wf(),
            delivered(*old(self), *final(self), key@, match doc {
                Some(d) => Some(d@),
                None => None,
            }),
    {
        let p = match self.pending.take() {
            Some(p) => p,
            None => {
                return ;
            },
        };
        if self.is_open(key) {
            return ;
        }
        let d = match doc {
            Some(d) => d,
            None => {
                return ;
            },
        };
        let poe = poe_section(d);
        proof {
            lemma_add_tasks_names(poe@, self.tasks());
        }
        add_tasks(&mut self.resolved.tasks, &poe, &mut self.taken);
        if p.recursive {
            let dir = match parent_dir(p.path.as_str()) {
                Some(pd) => pd,
                None => p.dir,
            };
            let items = include_items(&poe);
            let ghost before = self.walk();
            self.frames.push(Frame { dir, items, next: 0, key: Some(owned(key)) });
            proof {
                assert(self.walk() =~= before.push(self.frames@.last()@));
                assert(self.walk().drop_last() =~= before);
            }
        }
        let ghost before_sources = self.sources();
        self.resolved.sources.push(p.path);
        proof {
            assert(self.sources() =~= before_sources.push(p.path@));
        }
    }

    /// The answer for the include entry handed out last, as [`Resolver::deliver`] with the
    /// file's text parsed as TOML: `text` is `None` when the file could not be read, and a
    /// text that is not valid TOML counts as no content.
    pub fn deliver_text(&mut self, key: &str, text: Option<&str>)
        requires
            old(self).wf(),
        ensures
            final(self).wf(),
            delivered(*old(self), *final(self), key@, match text {
                Some(t) => toml_tree(t@),
                None => None,
            }),
    {
        let doc = match text {
            Some(t) => parse_toml(t),
            None => None,
        };
        match &doc {
            Some(d) => self.deliver(key, Some(d)),
            None => self.deliver(key, None),
        }
    }

    /// The `include_script` entries of the project file, handed over to be run; none are
    /// left behind.
    pub fn take_scripts(&mut self) -> (r: Vec<Json>)
        requires
            old(self).wf(),
        ensures
            final(self).wf(),
            jsons_view(r@) == old(self).scripts(),
            final(self).scripts() == Seq::<JsonView>::empty(),
            final(self).tasks() == old(self).tasks(),
            final(self).sources() == old(self).sources(),
            final(self).walk() == old(self).walk(),
            final(self).pending() == old(self).pending(),
            final(self).root() == old(self).root(),
            final(self).project_file() == old(self).project_file(),
    {
        let mut out: Vec<Json> = Vec::new();
        std::mem::swap(&mut out, &mut self.scripts);
        proof {
            assert(self.scripts() =~= Seq::<JsonView>::empty());
        }
        out
    }

    /// Add what one `include_script` printed, already parsed: the `tool.poe` body of any of
    /// poe's three output shapes supplies tasks not yet taken, and a reported `config_path`
    /// becomes a source.
    pub fn add_script_output(&mut self, output: &Json)
        requires
            old(self).wf(),
        ensures
            final(self).wf(),
            final(self).tasks() == old(self).tasks() + spec_add_tasks(
                spec_script_output(output@).0,
                names(old(self).tasks()),
            ).0,
            final(self).sources() == match spec_script_output(output@).1 {
                Some(p) => old(self).sources().push(p),
                None => old(self).sources(),
            },
            final(self).walk() == old(self).walk(),
            final(self).pending() == old(self).pending(),
            final(self).root() == old(self).root(),
            final(self).project_file() == old(self).project_file(),
            final(self).scripts() == old(self).scripts(),
    {
        let (body, config_path) = normalize_script_output(output);
        proof {
            lemma_add_tasks_names(body@, self.tasks());
        }
        add_tasks(&mut self.resolved.tasks, &body, &mut self.taken);
        match config_path {
            Some(path) => {
                let ghost before = self.sources();
                self.resolved.sources.push(path);
                proof {
                    assert(self.sources() =~= before.push(spec_script_output(output@).1->0));
                }
            },
            None => {},
        }
    }

    /// The resolved table: every task poe would offer, in definition order, each name once
    /// and no hidden one, with every file it was derived from.
    pub fn finish(self) -> (r: Resolved)
        requires
            self.wf(),
        ensures
            tasks_view(r.tasks@) == self.tasks(),
            r.sources.deep_view() == self.sources(),
            distinct_listed(names(tasks_view(r.tasks@))),
            r.sources.len() > 0,
            r.sources.deep_view()[0] == self.project_file(),
    {
        self.resolved
    }
}

// ---- include_script ---------------------------------------------------------------------

/// One process to run: the program, its arguments, and the directory it runs in.
pub struct ScriptCall {
    pub program: String,
    pub args: Vec<String>,
    pub cwd: String,
}

/// The view of an optional `&str`.
pub open spec fn opt_str(o: Option<&str>) -> Option<Seq<char>> {
    match o {
        Some(s) => Some(s@),
        None => None,
    }
}

/// The one-liner an `include_script` entry runs, `None` when it has no `script` string or
/// the reference has no `:`.
pub open spec fn entry_source(item: JsonView, src_dir: Option<Seq<char>>) -> Option<Seq<char>> {
    match as_str(jget(item, "script"@)) {
        Some(s) => spec_script_source(s, src_dir),
        None => None,
    }
}

/// The call that runs an `include_script` entry: `python -c` with poe's one-liner for the
/// entry's `script` (with `src_dir` put on `sys.path` when given), in the entry's `cwd`
/// under `root`, or in `root` itself. `None` when the entry has no `script` string or the
/// reference has no `:`: such an entry adds nothing.
pub fn script_call(root: &str, item: &Json, src_dir: Option<&str>, python: &str) -> (r: Option<
    ScriptCall,
>)
    ensures
        r is Some <==> entry_source(item@, opt_str(src_dir)) is Some,
        r is Some ==> r->0.program@ == python@,
        r is Some ==> r->0.args.deep_view() == seq![
            "-c"@,
            entry_source(item@, opt_str(src_dir))->0,
        ],
        r is Some ==> match as_str(jget(item@, "cwd"@)) {
            None => r->0.cwd@ == root@,
            Some(c) => simple_relative(c) && !root@.contains('?') ==> is_join(r->0.cwd@, root@, c),
        },
{
    let reference = match script_reference(item) {
        Some(s) => s,
        None => {
            assert(entry_source(item@, opt_str(src_dir)) is None);
            return None;
        },
    };
    assert(as_str(jget(item@, "script"@)) == Some(reference@));
    let source = match script_source(reference.as_str(), src_dir) {
        Some(s) => s,
        None => {
            assert(entry_source(item@, opt_str(src_dir)) is None);
            return None;
        },
    };
    assert(entry_source(item@, opt_str(src_dir)) == Some(source@));
    let cwd = match script_cwd(item) {
        Some(c) => join_path(root, c.as_str()),
        None => owned(root),
    };
    let ghost sv = source@;
    let args = vec![String::from_str("-c"), source];
    proof {
        reveal_strlit("-c");
        assert(args.deep_view() =~= seq!["-c"@, sv]);
    }
    Some(ScriptCall { program: owned(python), args, cwd })
}

/// What an `include_script` printed, trimmed, when it exited 0; `None` when it failed: a
/// failing script adds no tasks.
pub fn script_stdout(out: &CapturedOutput) -> (r: Option<String>)
    ensures
        r is Some <==> out.code == Some(0i32),
        r is Some ==> r->0@ == trim(out.stdout@),
{
    if out.success() {
        Some(trimmed(out.stdout.as_str()))
    } else {
        None
    }
}

/// poe accepts a JSON string that holds JSON: the text to parse once more, when `v` is a
/// string.
pub fn embedded_json(v: &Json) -> (r: Option<String>)
    ensures
        match v@ {
            JsonView::Str(s) => r is Some && r->0@ == s,
            _ => r is None,
        },
{
    match v {
        Json::Str(s) => Some(owned(s.as_str())),
        _ => None,
    }
}

/// The components of the venv interpreters are plain.
proof fn lemma_python_parts_plain()
    ensures
        plain_component(".venv"@),
        plain_component("Scripts"@),
        plain_component("bin"@),
        plain_component("python.exe"@),
        plain_component("python"@),
{
    reveal_strlit(".venv");
    reveal_strlit("Scripts");
    reveal_strlit("bin");
    reveal_strlit("python.exe");
    reveal_strlit("python");
    assert(plain_component(".venv"@)) by {
        assert(".venv"@.len() == 5);
        assert(seq!['.'].len() == 1 && seq!['.', '.'].len() == 2);
        assert(forall|i: int|
            0 <= i < 5 ==> #[trigger] ".venv"@[i] != '/' && ".venv"@[i] != '\\' && ".venv"@[i] != ':'
                && ".venv"@[i] != '?');
    }
    assert(plain_component("Scripts"@)) by {
        assert("Scripts"@.len() == 7);
        assert(seq!['.'].len() == 1 && seq!['.', '.'].len() == 2);
        assert(forall|i: int|
            0 <= i < 7 ==> #[trigger] "Scripts"@[i] != '/' && "Scripts"@[i] != '\\' && "Scripts"@[i] != ':'
                && "Scripts"@[i] != '?');
    }
    assert(plain_component("bin"@)) by {
        assert("bin"@.len() == 3);
        assert(seq!['.'].len() == 1 && seq!['.', '.'].len() == 2);
        assert(forall|i: int|
            0 <= i < 3 ==> #[trigger] "bin"@[i] != '/' && "bin"@[i] != '\\' && "bin"@[i] != ':'
                && "bin"@[i] != '?');
    }
    assert(plain_component("python.exe"@)) by {
        assert("python.exe"@.len() == 10);
        assert(seq!['.'].len() == 1 && seq!['.', '.'].len() == 2);
        assert(forall|i: int|
            0 <= i < 10 ==> #[trigger] "python.exe"@[i] != '/' && "python.exe"@[i] != '\\' && "python.exe"@[i] != ':'
                && "python.exe"@[i] != '?');
    }
    assert(plain_component("python"@)) by {
        assert("python"@.len() == 6);
        assert(seq!['.'].len() == 1 && seq!['.', '.'].len() == 2);
        assert(forall|i: int|
            0 <= i < 6 ==> #[trigger] "python"@[i] != '/' && "python"@[i] != '\\' && "python"@[i] != ':'
                && "python"@[i] != '?');
    }
}

/// `base` joined with the plain component `c`, extending a path `base` is of `root`.
fn join_part(
    base: &str,
    c: &str,
    Ghost(clean): Ghost<bool>,
    Ghost(root): Ghost<Seq<char>>,
    Ghost(parts): Ghost<Seq<Seq<char>>>,
) -> (r: String)
    requires
        plain_component(c@),
        clean ==> !base@.contains('?') && joined_all(base@, root, parts),
    ensures
        ends_with(r@, c@),
        clean ==> joined_all(r@, root, parts.push(c@)) && !r@.contains('?'),
{
    let r = join_path(base, c);
    proof {
        if clean {
            lemma_plain_is_simple(c@);
            lemma_joined_all_push(r@, base@, root, parts, c@);
            lemma_join_keeps_free(r@, base@, c@, '?');
        }
    }
    r
}

/// The configuration an `include_script` printed: `None` when it failed; otherwise the JSON
/// its trimmed output holds, parsed once more when that is a JSON string (poe accepts a
/// string holding JSON), and `None` when either text is not valid JSON.
pub open spec fn spec_script_json(out: CapturedOutput) -> Option<JsonView> {
    if out.code == Some(0i32) {
        match json_tree(trim(out.stdout@)) {
            Some(JsonView::Str(inner)) => json_tree(inner),
            other => other,
        }
    } else {
        None
    }
}

/// The configuration an `include_script` printed, parsed.
pub fn script_json(out: &CapturedOutput) -> (r: Option<Json>)
    ensures
        opt_json_view(r) == spec_script_json(*out),
{
    let text = match script_stdout(out) {
        Some(t) => t,
        None => {
            return None;
        },
    };
    let json = match parse_json(text.as_str()) {
        Some(j) => j,
        None => {
            return None;
        },
    };
    match embedded_json(&json) {
        Some(inner) => parse_json(inner.as_str()),
        None => Some(json),
    }
}

/// The view of an optional value.
pub open spec fn opt_json_view(o: Option<Json>) -> Option<JsonView> {
    match o {
        Some(j) => Some(j@),
        None => None,
    }
}

/// The interpreters an `include_script` may run with, in order of preference: the venv's
/// `Scripts/python.exe` (Windows), then its `bin/python`, each joined component by component
/// so the path uses the platform's separators throughout. Each ends with its file name and,
/// when `root` has no verbatim prefix, is `root` extended by its components.
pub fn python_candidates(root: &str) -> (r: Vec<String>)
    ensures
        r.len() == 2,
        ends_with(r[0]@, "python.exe"@),
        ends_with(r[1]@, "python"@),
        !root@.contains('?') ==> joined_all(r[0]@, root@, seq![".venv"@, "Scripts"@, "python.exe"@])
            && joined_all(r[1]@, root@, seq![".venv"@, "bin"@, "python"@]),
{
    proof {
        lemma_python_parts_plain();
        lemma_joined_none(root@);
    }
    let ghost clean = !root@.contains('?');
    let ghost none: Seq<Seq<char>> = seq![];
    let venv = join_part(root, ".venv", Ghost(clean), Ghost(root@), Ghost(none));
    let ghost v = none.push(".venv"@);
    let scripts = join_part(venv.as_str(), "Scripts", Ghost(clean), Ghost(root@), Ghost(v));
    let bin = join_part(venv.as_str(), "bin", Ghost(clean), Ghost(root@), Ghost(v));
    let windows = join_part(
        scripts.as_str(),
        "python.exe",
        Ghost(clean),
        Ghost(root@),
        Ghost(v.push("Scripts"@)),
    );
    let posix = join_part(
        bin.as_str(),
        "python",
        Ghost(clean),
        Ghost(root@),
        Ghost(v.push("bin"@)),
    );
    proof {
        assert(none.push(".venv"@).push("Scripts"@).push("python.exe"@) =~= seq![".venv"@, "Scripts"@, "python.exe"@]);
        assert(none.push(".venv"@).push("bin"@).push("python"@) =~= seq![".venv"@, "bin"@, "python"@]);
    }
    let r = vec![windows, posix];
    r
}

/// The first candidate that `present` marks, else `python` (found on PATH).
pub open spec fn first_present(candidates: Seq<Seq<char>>, present: Seq<bool>) -> Seq<char>
    decreases candidates.len(),
{
    if candidates.len() == 0 || present.len() == 0 {
        "python"@
    } else if present[0] {
        candidates[0]
    } else {
        first_present(candidates.drop_first(), present.drop_first())
    }
}

/// The interpreter to run `include_script` with: the first candidate that is a file
/// (`present[i]` says whether `candidates[i]` is), else `python` on PATH.
pub fn python_for(candidates: &Vec<String>, present: &Vec<bool>) -> (r: String)
    ensures
        r@ == first_present(candidates.deep_view(), present@),
{
    let ghost cd = candidates.deep_view();
    let mut i: usize = 0;
    assert(cd.skip(0) =~= cd);
    assert(present@.skip(0) =~= present@);
    while i < candidates.len() && i < present.len()
        invariant
            i <= candidates.len(),
            i <= present.len(),
            cd == candidates.deep_view(),
            first_present(cd.skip(i as int), present@.skip(i as int)) == first_present(
                cd,
                present@,
            ),
        decreases candidates.len() - i,
    {
        assert(cd.skip(i as int)[0] == cd[i as int]);
        assert(cd[i as int] == candidates@[i as int]@);
        assert(present@.skip(i as int)[0] == present@[i as int]);
        assert(cd.skip(i as int).drop_first() =~= cd.skip(i + 1));
        assert(present@.skip(i as int).drop_first() =~= present@.skip(i + 1));
        if present[i] {
            return owned(candidates[i].as_str());
        }
        i += 1;
    }
    proof {
        reveal_strlit("python");
    }
    String::from_str("python")
}

} // verus!
