//! The command surface: what each subcommand prints, and how a shim's request is assembled.
//!
//! Reading the environment, resolving the project and printing stay with the caller; this
//! module decides what is printed from the values they hand over.

use vstd::prelude::*;

use crate::engine::{Request, Shell, complete, find_task, spec_answer};
use crate::format::{arg_lines, describe_task_args, list_tasks, spec_list_tasks};
use crate::parse::{opt_chars, parse, spec_parse};
use crate::paths::{is_join, join_path, simple_relative};
use crate::resolve::{Resolved, tasks_view};
use crate::scripts::{BASH, POWERSHELL};
use crate::text::{owned, str_eq};
use crate::wire::{render, spec_render};
use crate::words::{split_line, spec_split_line};

verus! {

/// The subcommands.
#[derive(Debug, Clone)]
pub enum Command {
    /// Print task names on one line (replaces `poe _list_tasks`).
    Tasks {
        /// Project directory (the current directory when absent or empty).
        dir: Option<String>,
    },
    /// Print a task's arguments, tab-separated (replaces `poe _describe_task_args`).
    Args {
        task: String,
        /// Project directory (the current directory when absent or empty).
        dir: Option<String>,
    },
    /// Print a shell completion script that registers for the `poe` command.
    Script { powershell: bool, bash: bool },
    /// Install the completion into the shell profile(s).
    Install { powershell: bool, bash: bool, dry_run: bool },
    /// Answer one completion request from a shell shim.
    Query {
        /// Which shim is asking, which decides how the command line was handed over.
        shell: Shell,
        /// The shim's own version, so a drifted shim can be detected and repaired.
        shim_version: u32,
        /// bash: the raw `COMP_LINE`.
        line: Option<String>,
        /// bash: `COMP_POINT`, a byte offset into `line`.
        point: Option<usize>,
        /// PowerShell: index of the element the cursor is on.
        cword: Option<usize>,
        /// PowerShell: its own `$wordToComplete`, authoritative for the prefix.
        word_to_complete: Option<String>,
        /// PowerShell: the parsed command elements.
        words: Vec<String>,
    },
}

/// Shell-completion data for poe tasks.
#[derive(Debug, Clone)]
pub struct Args {
    /// Ignore and rewrite the completion cache.
    pub no_cache: bool,
    pub command: Command,
}

/// The project a `tasks` or `args` command names: `dir`, or `cwd` when it is absent or
/// empty (the bash script always passes its target path, which is empty when no `-C` was
/// given).
pub fn project_dir(dir: Option<&str>, cwd: &str) -> (r: String)
    ensures
        r@ == match dir {
            Some(d) => if d@.len() > 0 {
                d@
            } else {
                cwd@
            },
            None => cwd@,
        },
{
    match dir {
        Some(d) => if d.unicode_len() > 0 {
            owned(d)
        } else {
            owned(cwd)
        },
        None => owned(cwd),
    }
}

/// The words, cursor index and prefix of a request, from whichever shape the shim sent:
/// bash's raw line and byte offset (empty and 0 when missing), or PowerShell's elements,
/// cursor index (past the last element when missing) and word to complete (empty when
/// missing).
pub open spec fn request_shape(
    shell: Shell,
    line: Option<Seq<char>>,
    point: Option<usize>,
    cword: Option<usize>,
    word_to_complete: Option<Seq<char>>,
    words: Seq<Seq<char>>,
) -> (Seq<Seq<char>>, int, Seq<char>) {
    match shell {
        Shell::Bash => {
            let split = spec_split_line(
                match line {
                    Some(l) => l,
                    None => seq![],
                },
                match point {
                    Some(p) => p as int,
                    None => 0,
                },
            );
            (split.words, split.cword, split.prefix)
        },
        Shell::PowerShell => (
            words,
            match cword {
                Some(c) => c as int,
                None => words.len() as int,
            },
            match word_to_complete {
                Some(w) => w,
                None => seq![],
            },
        ),
    }
}

/// Assemble an [`Request`] from whichever shape the shim sent.
///
/// The two shells are deliberately asymmetric: bash hands over raw text because its own
/// word splitting breaks on `=`, while PowerShell hands over elements its parser already
/// produced, which are authoritative and would only be degraded by re-parsing. `-C dir`
/// before the task retargets the request: the root is `cwd` joined with it; without one
/// (or with an empty one) the root is `cwd`.
pub fn build_request(
    shell: Shell,
    line: Option<&str>,
    point: Option<usize>,
    cword: Option<usize>,
    word_to_complete: Option<&str>,
    words: &Vec<String>,
    cwd: &str,
) -> (r: Request)
    ensures
        (r.words.deep_view(), r.cword as int, r.prefix@) == request_shape(
            shell,
            match line {
                Some(l) => Some(l@),
                None => None,
            },
            point,
            cword,
            match word_to_complete {
                Some(w) => Some(w@),
                None => None,
            },
            words.deep_view(),
        ),
        r.shell == shell,
        ({
            let dir = spec_parse(r.words.deep_view(), r.cword as int).target_dir;
            &&& !(dir is Some && dir->0.len() > 0) ==> r.root@ == cwd@
            &&& dir is Some && simple_relative(dir->0) && !cwd@.contains('?') ==> is_join(
                r.root@,
                cwd@,
                dir->0,
            )
        }),
{
    let (words, cword, prefix): (Vec<String>, usize, String) = match shell {
        Shell::Bash => {
            let text = match line {
                Some(l) => l,
                None => "",
            };
            let at = match point {
                Some(p) => p,
                None => 0,
            };
            proof {
                reveal_strlit("");
            }
            let split = split_line(text, at);
            (split.words, split.cword, split.prefix)
        },
        Shell::PowerShell => {
            let c = match cword {
                Some(c) => c,
                None => words.len(),
            };
            let prefix = match word_to_complete {
                Some(w) => owned(w),
                None => String::new(),
            };
            (clone_words(words), c, prefix)
        },
    };
    let parsed = parse(&words, cword);
    let root = match parsed.target_dir {
        Some(dir) => {
            if dir.as_str().unicode_len() > 0 {
                join_path(cwd, dir.as_str())
            } else {
                owned(cwd)
            }
        },
        None => owned(cwd),
    };
    Request { shell, words, cword, prefix, root }
}

/// A copy of a list of strings.
fn clone_words(v: &Vec<String>) -> (r: Vec<String>)
    ensures
        r.deep_view() == v.deep_view(),
{
    let mut out: Vec<String> = Vec::new();
    let mut i: usize = 0;
    while i < v.len()
        invariant
            i <= v.len(),
            out.deep_view() == v.deep_view().take(i as int),
        decreases v.len() - i,
    {
        let ghost before = out.deep_view();
        let c = v[i].clone();
        out.push(c);
        assert(out.deep_view() =~= before.push(v.deep_view()[i as int]));
        assert(out.deep_view() =~= v.deep_view().take(i + 1));
        i += 1;
    }
    assert(v.deep_view().take(v@.len() as int) =~= v.deep_view());
    out
}

/// What a subcommand prints, given the project's resolved table (`None` when the project
/// could not be resolved).
pub open spec fn spec_output(command: Command, resolved: Option<&Resolved>) -> Seq<char> {
    match command {
        Command::Tasks { .. } => match resolved {
            Some(r) => spec_list_tasks(tasks_view(r.tasks@)),
            None => seq![],
        },
        Command::Args { task, .. } => match resolved {
            Some(r) => match find_task(tasks_view(r.tasks@), task@, 0) {
                Some(t) => arg_lines(t.args),
                None => seq![],
            },
            None => seq![],
        },
        Command::Script { bash, .. } => if bash {
            BASH@
        } else {
            POWERSHELL@
        },
        Command::Install { .. } => seq![],
        Command::Query { shell, line, point, cword, word_to_complete, words, .. } => {
            let (ws, c, prefix) = request_shape(
                shell,
                opt_chars(line),
                point,
                cword,
                opt_chars(word_to_complete),
                words.deep_view(),
            );
            spec_render(spec_answer(ws, c, prefix, resolved))
        },
    }
}

/// Index of the first task named `name`.
fn task_named(r: &Resolved, name: &str) -> (i: Option<usize>)
    ensures
        match i {
            Some(i) => i < r.tasks.len() && find_task(tasks_view(r.tasks@), name@, 0) == Some(
                tasks_view(r.tasks@)[i as int],
            ),
            None => find_task(tasks_view(r.tasks@), name@, 0) is None,
        },
{
    let ghost tv = tasks_view(r.tasks@);
    let mut i: usize = 0;
    while i < r.tasks.len()
        invariant
            i <= r.tasks.len(),
            tv == tasks_view(r.tasks@),
            find_task(tv, name@, 0) == find_task(tv, name@, i as int),
        decreases r.tasks.len() - i,
    {
        if str_eq(r.tasks[i].name.as_str(), name) {
            return Some(i);
        }
        i += 1;
    }
    None
}

/// What to print for the data and script subcommands. A failed resolution prints nothing:
/// the data subcommands never fail, because a failing completer would break the shell.
/// `install` has side effects and prints nothing here. PowerShell's script is the default.
pub fn output(command: &Command, cwd: &str, resolved: Option<&Resolved>) -> (r: String)
    ensures
        r@ == spec_output(*command, resolved),
{
    match command {
        Command::Tasks { .. } => match resolved {
            Some(r) => list_tasks(r.tasks.as_slice()),
            None => String::new(),
        },
        Command::Args { task, .. } => match resolved {
            Some(r) => match task_named(r, task.as_str()) {
                Some(i) => describe_task_args(&r.tasks[i]),
                None => String::new(),
            },
            None => String::new(),
        },
        Command::Script { bash, .. } => if *bash {
            owned(BASH)
        } else {
            owned(POWERSHELL)
        },
        Command::Install { .. } => String::new(),
        Command::Query { shell, line, point, cword, word_to_complete, words, .. } => {
            let req = build_request(
                *shell,
                match line {
                    Some(l) => Some(l.as_str()),
                    None => None,
                },
                *point,
                *cword,
                match word_to_complete {
                    Some(w) => Some(w.as_str()),
                    None => None,
                },
                words,
                cwd,
            );
            render(&complete(&req, resolved))
        },
    }
}

} // verus!
