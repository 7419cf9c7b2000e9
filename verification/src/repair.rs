//! Repair a shim that is older than the binary answering it.
//!
//! An installed shim lives in the user's profile indefinitely, so it will eventually be
//! older than the binary it calls. A request carrying a stale [`SHIM_VERSION`] rewrites the
//! shim file in place; this module decides what to write where, and whether a file needs it.
//!
//! Two properties matter, and both come from one constraint: a shell that is already open
//! holds the old shim in memory and reports the old version on every Tab press.
//!
//! - The repair must be idempotent: once the file on disk is current, later presses must
//!   not rewrite it, or every Tab would hit the disk.
//! - The request is still answered; repairing never replaces answering.

use vstd::prelude::*;

use crate::engine::Shell;
use crate::scripts::{BASH, POWERSHELL, SHIM_VERSION};
use crate::paths::{
    all_plain, ends_with, join_path, joined_all, lemma_join_keeps_free, lemma_joined_all_push,
    lemma_joined_all_shape, lemma_joined_none, lemma_plain_is_simple, plain_component,
};
use crate::text::{owned, str_eq};

verus! {

/// Where the PowerShell shim is written, relative to the home directory.
pub const POWERSHELL_SHIM: [&'static str; 4] = [".local", "share", "devkit", "poe-completion.ps1"];

/// The first bash completion file (the Git Bash loader's directory), relative to home.
pub const BASH_COMPLETION_D: [&'static str; 2] = ["bash_completion.d", "poe.bash"];

/// The second bash completion file (the bash-completion package's directory), relative to
/// home.
pub const BASH_COMPLETIONS: [&'static str; 5] = [
    ".local",
    "share",
    "bash-completion",
    "completions",
    "poe",
];

/// The script a shell's shim must hold.
pub open spec fn spec_shim_script(shell: Shell) -> Seq<char> {
    match shell {
        Shell::Bash => BASH@,
        Shell::PowerShell => POWERSHELL@,
    }
}

/// The script a shell's shim must hold.
pub fn shim_script(shell: Shell) -> (r: &'static str)
    ensures
        r@ == spec_shim_script(shell),
{
    match shell {
        Shell::Bash => BASH,
        Shell::PowerShell => POWERSHELL,
    }
}

/// The path components of a list of relative paths.
pub open spec fn paths_view(paths: Seq<Vec<&str>>) -> Seq<Seq<Seq<char>>> {
    paths.map_values(|p: Vec<&str>| p@.map_values(|c: &str| c@))
}

/// The files a shell's shim is installed to, relative to home, in the order they are
/// written. bash installs the same script twice, because which copy the shell loads
/// depends on which loader it has; both must be repaired.
pub open spec fn spec_shim_targets(shell: Shell) -> Seq<Seq<Seq<char>>> {
    match shell {
        Shell::Bash => seq![
            BASH_COMPLETION_D@.map_values(|c: &str| c@),
            BASH_COMPLETIONS@.map_values(|c: &str| c@),
        ],
        Shell::PowerShell => seq![POWERSHELL_SHIM@.map_values(|c: &str| c@)],
    }
}

/// A copy of a list of path components.
fn components(parts: &[&'static str]) -> (r: Vec<&'static str>)
    ensures
        r@ == parts@,
{
    let mut out: Vec<&'static str> = Vec::new();
    let mut i: usize = 0;
    while i < parts.len()
        invariant
            i <= parts.len(),
            out@ == parts@.take(i as int),
        decreases parts.len() - i,
    {
        out.push(parts[i]);
        assert(out@ =~= parts@.take(i + 1));
        i += 1;
    }
    assert(parts@.take(parts@.len() as int) =~= parts@);
    out
}

/// The files a shell's shim is installed to, relative to home.
pub fn shim_targets(shell: Shell) -> (r: Vec<Vec<&'static str>>)
    ensures
        paths_view(r@) == spec_shim_targets(shell),
{
    let r = match shell {
        Shell::Bash => vec![
            components(BASH_COMPLETION_D.as_slice()),
            components(BASH_COMPLETIONS.as_slice()),
        ],
        Shell::PowerShell => vec![components(POWERSHELL_SHIM.as_slice())],
    };
    assert(paths_view(r@) =~= spec_shim_targets(shell));
    r
}

/// The components of a relative path as text.
pub open spec fn parts_view(parts: Seq<&str>) -> Seq<Seq<char>> {
    parts.map_values(|c: &str| c@)
}

/// `home` joined with each of `parts` in turn: `home` itself when there are none, `home`
/// extended by each part after at most one separator when the parts are plain components
/// and `home` has no verbatim prefix, and a path ending with the last part when that is a
/// plain component.
fn home_path(home: &str, parts: &Vec<&str>) -> (r: String)
    ensures
        parts.len() == 0 ==> r@ == home@,
        parts.len() > 0 && plain_component(parts@.last()@) ==> ends_with(r@, parts@.last()@),
        !home@.contains('?') && all_plain(parts_view(parts@)) ==> joined_all(
            r@,
            home@,
            parts_view(parts@),
        ),
{
    let ghost pv = parts_view(parts@);
    let ghost clean = !home@.contains('?') && all_plain(pv);
    let mut out = owned(home);
    let mut i: usize = 0;
    proof {
        lemma_joined_none(home@);
        assert(pv.take(0) =~= seq![]);
    }
    while i < parts.len()
        invariant
            i <= parts.len(),
            pv == parts_view(parts@),
            clean == (!home@.contains('?') && all_plain(pv)),
            i == 0 ==> out@ == home@,
            i > 0 && plain_component(parts@[i - 1]@) ==> ends_with(out@, parts@[i - 1]@),
            clean ==> joined_all(out@, home@, pv.take(i as int)) && !out@.contains('?'),
        decreases parts.len() - i,
    {
        let ghost before = out@;
        out = join_path(out.as_str(), parts[i]);
        proof {
            if clean {
                let c = pv[i as int];
                assert(c == parts@[i as int]@);
                lemma_plain_is_simple(c);
                lemma_joined_all_push(out@, before, home@, pv.take(i as int), c);
                assert(pv.take(i as int).push(c) =~= pv.take(i + 1));
                lemma_join_keeps_free(out@, before, c, '?');
            }
        }
        i += 1;
    }
    proof {
        assert(pv.take(parts.len() as int) =~= pv);
    }
    out
}

/// The components of every installed file are plain, and every file has some.
proof fn lemma_targets_plain(shell: Shell)
    ensures
        forall|i: int|
            0 <= i < spec_shim_targets(shell).len() ==> all_plain(#[trigger] spec_shim_targets(shell)[i])
                && spec_shim_targets(shell)[i].len() > 0,
{
    reveal_strlit(".local");
    reveal_strlit("share");
    reveal_strlit("devkit");
    reveal_strlit("poe-completion.ps1");
    reveal_strlit("bash_completion.d");
    reveal_strlit("poe.bash");
    reveal_strlit("bash-completion");
    reveal_strlit("completions");
    reveal_strlit("poe");
    assert(plain_component(".local"@)) by {
        assert(".local"@.len() == 6);
        assert(seq!['.'].len() == 1 && seq!['.', '.'].len() == 2);
        assert(forall|i: int| 0 <= i < 6 ==> #[trigger] ".local"@[i] != '/' && ".local"@[i] != '\\' && ".local"@[i] != ':' && ".local"@[i] != '?');
    }
    assert(plain_component("share"@)) by {
        assert("share"@.len() == 5);
        assert(seq!['.'].len() == 1 && seq!['.', '.'].len() == 2);
        assert(forall|i: int| 0 <= i < 5 ==> #[trigger] "share"@[i] != '/' && "share"@[i] != '\\' && "share"@[i] != ':' && "share"@[i] != '?');
    }
    assert(plain_component("devkit"@)) by {
        assert("devkit"@.len() == 6);
        assert(seq!['.'].len() == 1 && seq!['.', '.'].len() == 2);
        assert(forall|i: int| 0 <= i < 6 ==> #[trigger] "devkit"@[i] != '/' && "devkit"@[i] != '\\' && "devkit"@[i] != ':' && "devkit"@[i] != '?');
    }
    assert(plain_component("poe-completion.ps1"@)) by {
        assert("poe-completion.ps1"@.len() == 18);
        assert(seq!['.'].len() == 1 && seq!['.', '.'].len() == 2);
        assert(forall|i: int| 0 <= i < 18 ==> #[trigger] "poe-completion.ps1"@[i] != '/' && "poe-completion.ps1"@[i] != '\\' && "poe-completion.ps1"@[i] != ':' && "poe-completion.ps1"@[i] != '?');
    }
    assert(plain_component("bash_completion.d"@)) by {
        assert("bash_completion.d"@.len() == 17);
        assert(seq!['.'].len() == 1 && seq!['.', '.'].len() == 2);
        assert(forall|i: int| 0 <= i < 17 ==> #[trigger] "bash_completion.d"@[i] != '/' && "bash_completion.d"@[i] != '\\' && "bash_completion.d"@[i] != ':' && "bash_completion.d"@[i] != '?');
    }
    assert(plain_component("poe.bash"@)) by {
        assert("poe.bash"@.len() == 8);
        assert(seq!['.'].len() == 1 && seq!['.', '.'].len() == 2);
        assert(forall|i: int| 0 <= i < 8 ==> #[trigger] "poe.bash"@[i] != '/' && "poe.bash"@[i] != '\\' && "poe.bash"@[i] != ':' && "poe.bash"@[i] != '?');
    }
    assert(plain_component("bash-completion"@)) by {
        assert("bash-completion"@.len() == 15);
        assert(seq!['.'].len() == 1 && seq!['.', '.'].len() == 2);
        assert(forall|i: int| 0 <= i < 15 ==> #[trigger] "bash-completion"@[i] != '/' && "bash-completion"@[i] != '\\' && "bash-completion"@[i] != ':' && "bash-completion"@[i] != '?');
    }
    assert(plain_component("completions"@)) by {
        assert("completions"@.len() == 11);
        assert(seq!['.'].len() == 1 && seq!['.', '.'].len() == 2);
        assert(forall|i: int| 0 <= i < 11 ==> #[trigger] "completions"@[i] != '/' && "completions"@[i] != '\\' && "completions"@[i] != ':' && "completions"@[i] != '?');
    }
    assert(plain_component("poe"@)) by {
        assert("poe"@.len() == 3);
        assert(seq!['.'].len() == 1 && seq!['.', '.'].len() == 2);
        assert(forall|i: int| 0 <= i < 3 ==> #[trigger] "poe"@[i] != '/' && "poe"@[i] != '\\' && "poe"@[i] != ':' && "poe"@[i] != '?');
    }
    assert(POWERSHELL_SHIM@.map_values(|c: &str| c@) =~= seq![".local"@, "share"@, "devkit"@, "poe-completion.ps1"@]);
    assert(BASH_COMPLETION_D@.map_values(|c: &str| c@) =~= seq!["bash_completion.d"@, "poe.bash"@]);
    assert(BASH_COMPLETIONS@.map_values(|c: &str| c@) =~= seq![".local"@, "share"@, "bash-completion"@, "completions"@, "poe"@]);
}

/// The files a shell's shim is installed to, under `home`, in the order they are written:
/// one path for each list [`shim_targets`] gives, ending with that list's file name, and,
/// when `home` has no verbatim prefix, `home` extended by each of its components.
pub fn shim_paths(home: &str, shell: Shell) -> (r: Vec<String>)
    ensures
        r.len() == spec_shim_targets(shell).len(),
        forall|i: int|
            0 <= i < r.len() ==> ends_with(#[trigger] r[i]@, spec_shim_targets(shell)[i].last()),
        !home@.contains('?') ==> forall|i: int|
            0 <= i < r.len() ==> joined_all(#[trigger] r[i]@, home@, spec_shim_targets(shell)[i]),
{
    let targets = shim_targets(shell);
    let ghost st = spec_shim_targets(shell);
    proof {
        lemma_targets_plain(shell);
    }
    let mut out: Vec<String> = Vec::new();
    let mut i: usize = 0;
    while i < targets.len()
        invariant
            i <= targets.len(),
            out.len() == i,
            paths_view(targets@) == st,
            st == spec_shim_targets(shell),
            forall|j: int| 0 <= j < st.len() ==> all_plain(#[trigger] st[j]) && st[j].len() > 0,
            forall|j: int| 0 <= j < i ==> ends_with(#[trigger] out[j]@, st[j].last()),
            !home@.contains('?') ==> forall|j: int|
                0 <= j < i ==> joined_all(#[trigger] out[j]@, home@, st[j]),
        decreases targets.len() - i,
    {
        let ghost parts = st[i as int];
        assert(parts_view(targets@[i as int]@) == parts);
        assert(parts.last() == targets@[i as int]@.last()@);
        assert(plain_component(parts[parts.len() - 1]));
        let p = home_path(home, &targets[i]);
        out.push(p);
        i += 1;
    }
    out
}

/// The bash completion files under `home`: the Git Bash loader's `poe.bash`, then the
/// bash-completion package's `poe`, each `home` extended by its components when `home` has
/// no verbatim prefix.
pub fn bash_targets(home: &str) -> (r: Vec<String>)
    ensures
        r.len() == 2,
        ends_with(r[0]@, "poe.bash"@),
        ends_with(r[1]@, "poe"@),
        !home@.contains('?') ==> joined_all(r[0]@, home@, seq!["bash_completion.d"@, "poe.bash"@])
            && joined_all(
            r[1]@,
            home@,
            seq![".local"@, "share"@, "bash-completion"@, "completions"@, "poe"@],
        ),
{
    let r = shim_paths(home, Shell::Bash);
    proof {
        assert(BASH_COMPLETION_D@.map_values(|c: &str| c@) =~= seq!["bash_completion.d"@, "poe.bash"@]);
        assert(BASH_COMPLETIONS@.map_values(|c: &str| c@) =~= seq![".local"@, "share"@, "bash-completion"@, "completions"@, "poe"@]);
        assert(ends_with(r[0]@, spec_shim_targets(Shell::Bash)[0].last()));
        assert(ends_with(r[1]@, spec_shim_targets(Shell::Bash)[1].last()));
    }
    r
}

/// What a request from `shell` carrying `sent_version` asks to bring up to date: each
/// installed file with the script it must hold. Nothing when the shim is current, which is
/// the common case and never touches the disk.
pub open spec fn spec_repair_plan(shell: Shell, sent_version: u32) -> (Seq<Seq<Seq<char>>>, Seq<char>) {
    if sent_version == SHIM_VERSION {
        (seq![], spec_shim_script(shell))
    } else {
        (spec_shim_targets(shell), spec_shim_script(shell))
    }
}

/// The files to check, and the script they must hold, for a request from `shell` carrying
/// `sent_version`.
pub fn repair_plan(shell: Shell, sent_version: u32) -> (r: (Vec<Vec<&'static str>>, &'static str))
    ensures
        (paths_view(r.0@), r.1@) == spec_repair_plan(shell, sent_version),
{
    if sent_version == SHIM_VERSION {
        let none: Vec<Vec<&'static str>> = Vec::new();
        assert(paths_view(none@) =~= seq![]);
        (none, shim_script(shell))
    } else {
        (shim_targets(shell), shim_script(shell))
    }
}

/// The plan for a request from `shell` carrying `sent_version`, with each file as a path
/// under `home`: one path per file [`repair_plan`] names, in its order, ending with that
/// file's name and, when `home` has no verbatim prefix, `home` extended by its components;
/// and the script they must hold.
pub fn repair_targets(home: &str, shell: Shell, sent_version: u32) -> (r: (Vec<String>, &'static str))
    ensures
        r.0.len() == spec_repair_plan(shell, sent_version).0.len(),
        r.1@ == spec_repair_plan(shell, sent_version).1,
        forall|i: int|
            0 <= i < r.0.len() ==> ends_with(
                #[trigger] r.0[i]@,
                spec_repair_plan(shell, sent_version).0[i].last(),
            ),
        !home@.contains('?') ==> forall|i: int|
            0 <= i < r.0.len() ==> joined_all(
                #[trigger] r.0[i]@,
                home@,
                spec_repair_plan(shell, sent_version).0[i],
            ),
{
    let (_, script) = repair_plan(shell, sent_version);
    if sent_version == SHIM_VERSION {
        (Vec::new(), script)
    } else {
        (shim_paths(home, shell), script)
    }
}

/// Whether a file holding `on_disk` (`None` when it is missing or unreadable) must be
/// rewritten to hold `script`. An unreadable file counts as different: there is no way to
/// conclude it is already correct.
pub open spec fn spec_needs_rewrite(on_disk: Option<Seq<char>>, script: Seq<char>) -> bool {
    on_disk != Some(script)
}

/// Whether a file holding `on_disk` must be rewritten to hold `script`.
pub fn needs_rewrite(on_disk: Option<&str>, script: &str) -> (r: bool)
    ensures
        r == spec_needs_rewrite(
            match on_disk {
                Some(t) => Some(t@),
                None => None,
            },
            script@,
        ),
{
    match on_disk {
        Some(text) => !str_eq(text, script),
        None => true,
    }
}

/// The views of what each file holds.
pub open spec fn contents_view(on_disk: Seq<Option<String>>) -> Seq<Option<Seq<char>>> {
    on_disk.map_values(|d: Option<String>| match d {
        Some(t) => Some(t@),
        None => None,
    })
}

/// What the file `targets[i]` holds: `on_disk[i]`, and nothing when that is missing.
pub open spec fn held(on_disk: Seq<Option<Seq<char>>>, i: int) -> Option<Seq<char>> {
    if 0 <= i < on_disk.len() {
        on_disk[i]
    } else {
        None
    }
}

/// The files among `targets` that must be rewritten to hold `script`, in order: every one
/// whose content differs from it, not just the first.
pub open spec fn spec_stale_targets(
    targets: Seq<Seq<char>>,
    on_disk: Seq<Option<Seq<char>>>,
    script: Seq<char>,
) -> Seq<Seq<char>>
    decreases targets.len(),
{
    if targets.len() == 0 {
        seq![]
    } else {
        let i = targets.len() - 1;
        spec_stale_targets(targets.drop_last(), on_disk, script) + if spec_needs_rewrite(
            held(on_disk, i),
            script,
        ) {
            seq![targets[i]]
        } else {
            seq![]
        }
    }
}

/// The files among `targets` that must be rewritten to hold `script`, given what each holds
/// (`None` when it is missing or unreadable; a missing entry counts as `None`).
pub fn stale_targets(targets: &Vec<String>, on_disk: &Vec<Option<String>>, script: &str) -> (r: Vec<
    String,
>)
    ensures
        r.deep_view() == spec_stale_targets(targets.deep_view(), contents_view(on_disk@), script@),
{
    let ghost tv = targets.deep_view();
    let ghost dv = contents_view(on_disk@);
    let mut out: Vec<String> = Vec::new();
    let mut i: usize = 0;
    while i < targets.len()
        invariant
            i <= targets.len(),
            tv == targets.deep_view(),
            dv == contents_view(on_disk@),
            out.deep_view() == spec_stale_targets(tv.take(i as int), dv, script@),
        decreases targets.len() - i,
    {
        let d: Option<&str> = if i < on_disk.len() {
            match &on_disk[i] {
                Some(t) => Some(t.as_str()),
                None => None,
            }
        } else {
            None
        };
        assert(tv.take(i + 1).drop_last() =~= tv.take(i as int));
        assert(tv.take(i + 1)[i as int] == targets[i as int]@);
        let ghost before = out.deep_view();
        if needs_rewrite(d, script) {
            out.push(targets[i].clone());
            assert(out.deep_view() =~= before + seq![targets[i as int]@]);
        } else {
            assert(out.deep_view() =~= before + Seq::<Seq<char>>::empty());
        }
        i += 1;
    }
    assert(tv.take(targets.len() as int) =~= tv);
    out
}

/// No write when every file already holds the script: an open shell that keeps sending an
/// old version costs one read per press and no write.
pub proof fn lemma_current_files_stay(
    targets: Seq<Seq<char>>,
    on_disk: Seq<Option<Seq<char>>>,
    script: Seq<char>,
)
    requires
        on_disk.len() >= targets.len(),
        forall|i: int| 0 <= i < targets.len() ==> on_disk[i] == Some(script),
    ensures
        spec_stale_targets(targets, on_disk, script) == Seq::<Seq<char>>::empty(),
    decreases targets.len(),
{
    if targets.len() > 0 {
        lemma_current_files_stay(targets.drop_last(), on_disk, script);
        assert(seq![] + Seq::<Seq<char>>::empty() =~= Seq::<Seq<char>>::empty());
    }
}

/// A current shim touches nothing: its request plans no file, so no file is stale, whatever
/// the files hold.
pub proof fn lemma_current_version_writes_nothing(
    shell: Shell,
    targets: Seq<Seq<char>>,
    on_disk: Seq<Option<Seq<char>>>,
)
    requires
        targets.len() == spec_repair_plan(shell, SHIM_VERSION).0.len(),
    ensures
        spec_stale_targets(targets, on_disk, spec_repair_plan(shell, SHIM_VERSION).1)
            == Seq::<Seq<char>>::empty(),
{
}

/// Repairing is idempotent: a file that holds the script a plan asks for is not rewritten,
/// so an open shell that keeps reporting an old version costs one read per Tab press and
/// no write; and a current shim's request plans nothing at all.
pub proof fn lemma_repair_idempotent(shell: Shell, sent_version: u32)
    ensures
        !spec_needs_rewrite(Some(spec_repair_plan(shell, sent_version).1), spec_repair_plan(
            shell,
            sent_version,
        ).1),
        sent_version == SHIM_VERSION ==> spec_repair_plan(shell, sent_version).0.len() == 0,
{
}

} // verus!
