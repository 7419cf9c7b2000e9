//! What a finished process left behind, and a recording stand-in that answers calls from
//! scripts instead of spawning anything.

use vstd::prelude::*;

use crate::text::{owned, str_eq};

verus! {

/// What a finished process left behind. `code` is `None` when a signal ended it.
#[derive(Debug, Clone, PartialEq, Eq, Default)]
pub struct CapturedOutput {
    pub code: Option<i32>,
    pub stdout: String,
    pub stderr: String,
}

impl CapturedOutput {
    /// The process exited with status 0.
    pub fn success(&self) -> (r: bool)
        ensures
            r == (self.code == Some(0i32)),
    {
        match self.code {
            Some(c) => c == 0,
            None => false,
        }
    }
}

/// One recorded call.
#[derive(Debug, Clone, PartialEq, Eq)]
pub struct Invocation {
    pub program: String,
    pub args: Vec<String>,
    pub cwd: String,
}

/// The mathematical content of an [`Invocation`].
pub ghost struct InvocationView {
    pub program: Seq<char>,
    pub args: Seq<Seq<char>>,
    pub cwd: Seq<char>,
}

impl View for Invocation {
    type V = InvocationView;

    open spec fn view(&self) -> InvocationView {
        InvocationView { program: self.program@, args: self.args.deep_view(), cwd: self.cwd@ }
    }
}

/// The views of a list of invocations.
pub open spec fn invocations_view(calls: Seq<Invocation>) -> Seq<InvocationView> {
    calls.map_values(|c: Invocation| c@)
}

/// One scripted answer.
#[derive(Debug, Clone)]
pub struct Script {
    pub program: String,
    pub arg_prefix: Vec<String>,
    pub code: i32,
    pub stdout: String,
}

/// The mathematical content of a scripted answer.
pub ghost struct ScriptView {
    pub program: Seq<char>,
    pub arg_prefix: Seq<Seq<char>>,
    pub code: i32,
    pub stdout: Seq<char>,
}

impl View for Script {
    type V = ScriptView;

    open spec fn view(&self) -> ScriptView {
        ScriptView {
            program: self.program@,
            arg_prefix: self.arg_prefix.deep_view(),
            code: self.code,
            stdout: self.stdout@,
        }
    }
}

/// `p` begins the argument list `args`.
pub open spec fn args_start_with(args: Seq<Seq<char>>, p: Seq<Seq<char>>) -> bool {
    p.len() <= args.len() && args.subrange(0, p.len() as int) == p
}

/// The script answering a call: the most recently registered one whose program matches and
/// whose argument prefix starts the call's arguments.
pub open spec fn answering_script(
    scripts: Seq<ScriptView>,
    program: Seq<char>,
    args: Seq<Seq<char>>,
) -> Option<ScriptView>
    decreases scripts.len(),
{
    if scripts.len() == 0 {
        None
    } else if scripts.last().program == program && args_start_with(args, scripts.last().arg_prefix) {
        Some(scripts.last())
    } else {
        answering_script(scripts.drop_last(), program, args)
    }
}

/// The output a call gets: the answering script's code and stdout, or `exit_code` and no
/// output when none matches. Scripted calls never print to stderr.
pub open spec fn scripted_output(
    scripts: Seq<ScriptView>,
    exit_code: i32,
    program: Seq<char>,
    args: Seq<Seq<char>>,
) -> (Option<i32>, Seq<char>, Seq<char>) {
    match answering_script(scripts, program, args) {
        Some(s) => (Some(s.code), s.stdout, seq![]),
        None => (Some(exit_code), seq![], seq![]),
    }
}

/// The argument lists of the calls to `program`, in order.
pub open spec fn calls_to(calls: Seq<InvocationView>, program: Seq<char>) -> Seq<Seq<Seq<char>>>
    decreases calls.len(),
{
    if calls.len() == 0 {
        seq![]
    } else if calls.last().program == program {
        calls_to(calls.drop_last(), program).push(calls.last().args)
    } else {
        calls_to(calls.drop_last(), program)
    }
}

/// Records every call and answers from scripts; for tests. The most recently registered
/// script whose program matches and whose `arg_prefix` starts the call's arguments wins, so
/// a broad default can be overridden for one call; an unmatched call exits `exit_code` with
/// no output.
pub struct RecordingRunner {
    pub calls: Vec<Invocation>,
    pub exit_code: i32,
    pub scripts: Vec<Script>,
}

impl RecordingRunner {
    /// The scripts registered so far, oldest first.
    pub open spec fn scripts_view(&self) -> Seq<ScriptView> {
        self.scripts@.map_values(|s: Script| s@)
    }

    /// A runner with no scripts and no calls.
    pub fn new(exit_code: i32) -> (r: Self)
        ensures
            r.calls@.len() == 0,
            r.exit_code == exit_code,
            r.scripts_view().len() == 0,
    {
        let r = RecordingRunner { calls: Vec::new(), exit_code, scripts: Vec::new() };
        assert(r.scripts_view() =~= seq![]);
        r
    }

    /// Register an answer for calls to `program` whose arguments start with `arg_prefix`.
    pub fn script(&mut self, program: &str, arg_prefix: &[&str], code: i32, stdout: &str)
        ensures
            final(self).calls == old(self).calls,
            final(self).exit_code == old(self).exit_code,
            final(self).scripts_view() == old(self).scripts_view().push(
                ScriptView {
                    program: program@,
                    arg_prefix: arg_prefix@.map_values(|s: &str| s@),
                    code,
                    stdout: stdout@,
                },
            ),
    {
        let mut prefix: Vec<String> = Vec::new();
        let mut i: usize = 0;
        while i < arg_prefix.len()
            invariant
                i <= arg_prefix.len(),
                prefix.deep_view() == arg_prefix@.take(i as int).map_values(|s: &str| s@),
            decreases arg_prefix.len() - i,
        {
            let ghost before = prefix.deep_view();
            let item = owned(arg_prefix[i]);
            prefix.push(item);
            assert(prefix.deep_view() =~= before.push(arg_prefix@[i as int]@));
            assert(arg_prefix@.take(i + 1).map_values(|s: &str| s@) =~= arg_prefix@.take(
                i as int,
            ).map_values(|s: &str| s@).push(arg_prefix@[i as int]@));
            i += 1;
        }
        assert(arg_prefix@.take(arg_prefix@.len() as int) =~= arg_prefix@);
        let ghost before = self.scripts_view();
        self.scripts.push(
            Script { program: owned(program), arg_prefix: prefix, code, stdout: owned(stdout) },
        );
        assert(self.scripts_view() =~= before.push(
            ScriptView {
                program: program@,
                arg_prefix: arg_prefix@.map_values(|s: &str| s@),
                code,
                stdout: stdout@,
            },
        ));
    }

    /// The argument lists of every recorded call to `program`, in order.
    pub fn calls_for(&self, program: &str) -> (r: Vec<Vec<String>>)
        ensures
            r@.map_values(|a: Vec<String>| a.deep_view()) == calls_to(
                invocations_view(self.calls@),
                program@,
            ),
    {
        let ghost cv = invocations_view(self.calls@);
        let mut out: Vec<Vec<String>> = Vec::new();
        let mut i: usize = 0;
        while i < self.calls.len()
            invariant
                i <= self.calls.len(),
                cv == invocations_view(self.calls@),
                out@.map_values(|a: Vec<String>| a.deep_view()) == calls_to(
                    cv.take(i as int),
                    program@,
                ),
            decreases self.calls.len() - i,
        {
            let ghost before = out@.map_values(|a: Vec<String>| a.deep_view());
            assert(cv.take(i + 1).drop_last() =~= cv.take(i as int));
            assert(cv.take(i + 1).last() == self.calls[i as int]@);
            if str_eq(self.calls[i].program.as_str(), program) {
                let args = clone_strings(&self.calls[i].args);
                out.push(args);
                assert(out@.map_values(|a: Vec<String>| a.deep_view()) =~= before.push(
                    self.calls[i as int].args.deep_view(),
                ));
            }
            i += 1;
        }
        assert(cv.take(self.calls@.len() as int) =~= cv);
        out
    }

    /// Record the call and answer it from the scripts.
    pub fn run_capture(&mut self, program: &str, args: &Vec<String>, cwd: &str) -> (r: CapturedOutput)
        ensures
            invocations_view(final(self).calls@) == invocations_view(old(self).calls@).push(
                InvocationView { program: program@, args: args.deep_view(), cwd: cwd@ },
            ),
            final(self).exit_code == old(self).exit_code,
            final(self).scripts_view() == old(self).scripts_view(),
            (r.code, r.stdout@, r.stderr@) == scripted_output(
                old(self).scripts_view(),
                old(self).exit_code,
                program@,
                args.deep_view(),
            ),
    {
        let ghost before = invocations_view(self.calls@);
        let ghost sv = self.scripts_view();
        self.calls.push(
            Invocation { program: owned(program), args: clone_strings(args), cwd: owned(cwd) },
        );
        assert(invocations_view(self.calls@) =~= before.push(
            InvocationView { program: program@, args: args.deep_view(), cwd: cwd@ },
        ));
        let ghost calls_after = invocations_view(self.calls@);
        let ghost code = self.exit_code;
        let mut i = self.scripts.len();
        assert(sv.take(i as int) =~= sv);
        while i > 0
            invariant
                i <= self.scripts.len(),
                sv == self.scripts_view(),
                calls_after == invocations_view(self.calls@),
                code == self.exit_code,
                code == old(self).exit_code,
                sv == old(self).scripts_view(),
                before == invocations_view(old(self).calls@),
                calls_after == before.push(
                    InvocationView { program: program@, args: args.deep_view(), cwd: cwd@ },
                ),
                answering_script(sv, program@, args.deep_view()) == answering_script(
                    sv.take(i as int),
                    program@,
                    args.deep_view(),
                ),
            decreases i,
        {
            let s = &self.scripts[i - 1];
            assert(sv.take(i as int).last() == s@);
            assert(sv.take(i as int).drop_last() =~= sv.take(i - 1));
            if str_eq(s.program.as_str(), program) && strings_start_with(args, &s.arg_prefix) {
                assert(answering_script(sv.take(i as int), program@, args.deep_view()) == Some(s@));
                return CapturedOutput {
                    code: Some(s.code),
                    stdout: s.stdout.clone(),
                    stderr: String::new(),
                };
            }
            i -= 1;
        }
        CapturedOutput { code: Some(self.exit_code), stdout: String::new(), stderr: String::new() }
    }
}

/// A copy of a list of strings.
fn clone_strings(v: &Vec<String>) -> (r: Vec<String>)
    ensures
        r.deep_view() == v.deep_view(),
{
    let mut out: Vec<String> = Vec::new();
    let mut i: usize = 0;
    while i < v.len()
        invariant
            i <= v.len(),
            out.deep_view() == v.deep_view().take(i as int),
        decreases v.len() - i,
    {
        let ghost before = out.deep_view();
        let c = v[i].clone();
        assert(c@ == v.deep_view()[i as int]);
        out.push(c);
        assert(out.deep_view() =~= before.push(c@));
        assert(out.deep_view() =~= v.deep_view().take(i + 1));
        i += 1;
    }
    assert(v.deep_view().take(v@.len() as int) =~= v.deep_view());
    out
}

/// `p` begins `args`.
fn strings_start_with(args: &Vec<String>, p: &Vec<String>) -> (r: bool)
    ensures
        r == args_start_with(args.deep_view(), p.deep_view()),
{
    if p.len() > args.len() {
        return false;
    }
    let mut i: usize = 0;
    while i < p.len()
        invariant
            i <= p.len() <= args.len(),
            args.deep_view().subrange(0, i as int) == p.deep_view().subrange(0, i as int),
        decreases p.len() - i,
    {
        if !str_eq(args[i].as_str(), p[i].as_str()) {
            assert(args.deep_view().subrange(0, p.len() as int)[i as int] != p.deep_view()[i as int]);
            return false;
        }
        assert(args.deep_view().subrange(0, i + 1) =~= p.deep_view().subrange(0, i + 1));
        i += 1;
    }
    assert(p.deep_view().subrange(0, i as int) =~= p.deep_view());
    true
}

} // verus!
