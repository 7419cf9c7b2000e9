//! What installing decides: whether a shim file may be written, and what the PowerShell
//! profile holds afterwards. Finding the profile, and reading and writing files, stay with
//! the caller.

use vstd::prelude::*;

use crate::format::{index_or_end, lacks, lemma_index_or_end};
use crate::resolve::matches_here;
use crate::text::{chars_of, push_char, string_of_range};

verus! {

/// The phrase every generated shim carries in its header; a file without it is the user's
/// own and is never overwritten.
pub const SHIM_MARKER: &'static str = "devkit thin shim";

/// What poe's own (slow) PowerShell registration line mentions.
pub const POE_REGISTRATION: &'static str = "_powershell_completion";

/// The file name of the PowerShell shim, which any earlier registration line of ours
/// mentions.
pub const SHIM_FILE_NAME: &'static str = "poe-completion.ps1";

/// `pat` occurs in `s`.
pub open spec fn contains_text(s: Seq<char>, pat: Seq<char>) -> bool {
    exists|i: int|
        0 <= i && i + pat.len() <= s.len() && #[trigger] s.subrange(i, i + pat.len()) == pat
}

/// Whether `pat` occurs in `s`.
pub fn contains_str(s: &str, pat: &str) -> (r: bool)
    ensures
        r == contains_text(s@, pat@),
{
    let cs = chars_of(s);
    let pc = chars_of(pat);
    if pc.len() > cs.len() {
        return false;
    }
    let last = cs.len() - pc.len();
    let mut i: usize = 0;
    while i < last
        invariant
            last == cs.len() - pc.len(),
            pc.len() <= cs.len(),
            cs@ == s@,
            pc@ == pat@,
            i <= last,
            forall|j: int| 0 <= j < i ==> #[trigger] cs@.subrange(j, j + pc.len()) != pc@,
        decreases last - i,
    {
        if matches_here(&cs, i, &pc) {
            return true;
        }
        i += 1;
    }
    matches_here(&cs, last, &pc)
}

/// What writing a shim to a file holding `on_disk` (`None` when there is none) comes to.
#[derive(Debug, Clone, Copy, PartialEq, Eq, Structural)]
pub enum ShimWrite {
    /// The file already holds the script.
    Skip,
    /// The file is someone else's: it differs and does not carry [`SHIM_MARKER`].
    Refuse,
    /// The file is missing or an older shim of ours.
    Write,
}

/// Installing is idempotent and never clobbers a file it did not generate.
pub open spec fn spec_shim_write(on_disk: Option<Seq<char>>, script: Seq<char>) -> ShimWrite {
    match on_disk {
        Some(t) => if t == script {
            ShimWrite::Skip
        } else if !contains_text(t, SHIM_MARKER@) {
            ShimWrite::Refuse
        } else {
            ShimWrite::Write
        },
        None => ShimWrite::Write,
    }
}

/// Whether a shim may be written over a file holding `on_disk`.
pub fn shim_write(on_disk: Option<&str>, script: &str) -> (r: ShimWrite)
    ensures
        r == spec_shim_write(
            match on_disk {
                Some(t) => Some(t@),
                None => None,
            },
            script@,
        ),
{
    match on_disk {
        Some(t) => {
            if crate::text::str_eq(t, script) {
                ShimWrite::Skip
            } else if !contains_str(t, SHIM_MARKER) {
                ShimWrite::Refuse
            } else {
                ShimWrite::Write
            }
        },
        None => ShimWrite::Write,
    }
}

/// A line without the `\r` of a `\r\n` ending.
pub open spec fn strip_cr(l: Seq<char>) -> Seq<char> {
    if l.len() > 0 && l.last() == '\r' {
        l.drop_last()
    } else {
        l
    }
}

/// The lines of `s` as `str::lines` yields them: split at `\n`, a `\r` before it dropped,
/// and no empty line after a final `\n`.
pub open spec fn lines_of(s: Seq<char>) -> Seq<Seq<char>>
    decreases s.len(),
{
    if s.len() == 0 {
        seq![]
    } else {
        let k = index_or_end(s, '\n');
        if 0 <= k < s.len() {
            seq![strip_cr(s.subrange(0, k))] + lines_of(s.subrange(k + 1, s.len() as int))
        } else {
            seq![s]
        }
    }
}

/// A profile line that stays: it mentions neither poe's registration nor our shim.
pub open spec fn kept_line(l: Seq<char>) -> bool {
    !contains_text(l, POE_REGISTRATION@) && !contains_text(l, SHIM_FILE_NAME@)
}

/// The kept lines, each newline-terminated.
pub open spec fn profile_body(lines: Seq<Seq<char>>) -> Seq<char>
    decreases lines.len(),
{
    if lines.len() == 0 {
        seq![]
    } else {
        (if kept_line(lines[0]) {
            lines[0].push('\n')
        } else {
            seq![]
        }) + profile_body(lines.drop_first())
    }
}

/// The profile after registering: every line of `old` that mentions neither poe's own
/// registration nor an earlier line of ours, each newline-terminated, then `line`.
pub open spec fn spec_profile_text(old: Seq<char>, line: Seq<char>) -> Seq<char> {
    profile_body(lines_of(old)) + line + seq!['\n']
}

proof fn lemma_first_newline(s: Seq<char>, t: int)
    requires
        0 <= t <= s.len(),
        forall|m: int| 0 <= m < t ==> s[m] != '\n',
        t == s.len() || s[t] == '\n',
    ensures
        index_or_end(s, '\n') == t,
    decreases t,
{
    if t > 0 {
        lemma_first_newline(s.drop_first(), t - 1);
    }
}

proof fn lemma_lines_lack_newlines(s: Seq<char>)
    ensures
        forall|i: int| 0 <= i < lines_of(s).len() ==> lacks(#[trigger] lines_of(s)[i], '\n'),
    decreases s.len(),
{
    if s.len() > 0 {
        lemma_index_or_end(s, '\n');
        let k = index_or_end(s, '\n');
        if k < s.len() {
            let rest = s.subrange(k + 1, s.len() as int);
            lemma_lines_lack_newlines(rest);
            let first = strip_cr(s.subrange(0, k));
            assert(lacks(first, '\n')) by {
                assert forall|j: int| 0 <= j < first.len() implies first[j] != '\n' by {
                    assert(first[j] == s.subrange(0, k)[j]);
                }
            }
            assert forall|i: int| 0 <= i < lines_of(s).len() implies lacks(
                #[trigger] lines_of(s)[i],
                '\n',
            ) by {
                if i > 0 {
                    assert(lines_of(s)[i] == lines_of(rest)[i - 1]);
                }
            }
        } else {
            assert(s.subrange(0, k) =~= s);
        }
    }
}

proof fn lemma_lines_after_line(l: Seq<char>, rest: Seq<char>)
    requires
        lacks(l, '\n'),
    ensures
        lines_of(l + seq!['\n'] + rest) == seq![strip_cr(l)] + lines_of(rest),
{
    let s = l + seq!['\n'] + rest;
    lemma_first_newline(s, l.len() as int);
    assert(s.subrange(0, l.len() as int) =~= l);
    assert(s.subrange(l.len() as int + 1, s.len() as int) =~= rest);
}

/// The lines of `lines` that a profile keeps.
pub open spec fn kept_lines(lines: Seq<Seq<char>>) -> Seq<Seq<char>>
    decreases lines.len(),
{
    if lines.len() == 0 {
        seq![]
    } else {
        (if kept_line(lines[0]) {
            seq![lines[0]]
        } else {
            seq![]
        }) + kept_lines(lines.drop_first())
    }
}

proof fn lemma_kept_lines(lines: Seq<Seq<char>>)
    ensures
        profile_body(kept_lines(lines)) == profile_body(lines),
        forall|i: int|
            0 <= i < kept_lines(lines).len() ==> kept_line(#[trigger] kept_lines(lines)[i])
                && lines.contains(kept_lines(lines)[i]),
    decreases lines.len(),
{
    if lines.len() > 0 {
        let rest = lines.drop_first();
        lemma_kept_lines(rest);
        let k = kept_lines(lines);
        if kept_line(lines[0]) {
            assert(k[0] == lines[0]);
            assert(k.drop_first() =~= kept_lines(rest));
            assert forall|i: int| 0 <= i < k.len() implies kept_line(#[trigger] k[i])
                && lines.contains(k[i]) by {
                if i > 0 {
                    assert(k[i] == kept_lines(rest)[i - 1]);
                    let j = choose|j: int| 0 <= j < rest.len() && rest[j] == k[i];
                    assert(lines[j + 1] == rest[j]);
                } else {
                    assert(lines[0] == k[i]);
                }
            }
        } else {
            assert(k =~= kept_lines(rest));
            assert forall|i: int| 0 <= i < k.len() implies kept_line(#[trigger] k[i])
                && lines.contains(k[i]) by {
                assert(k[i] == kept_lines(rest)[i]);
                let j = choose|j: int| 0 <= j < rest.len() && rest[j] == k[i];
                assert(lines[j + 1] == rest[j]);
            }
        }
    }
}

proof fn lemma_profile_body_append(a: Seq<Seq<char>>, b: Seq<Seq<char>>)
    ensures
        profile_body(a + b) == profile_body(a) + profile_body(b),
    decreases a.len(),
{
    if a.len() == 0 {
        assert(a + b =~= b);
    } else {
        lemma_profile_body_append(a.drop_first(), b);
        assert((a + b).drop_first() =~= a.drop_first() + b);
        assert((a + b)[0] == a[0]);
    }
}

proof fn lemma_reparse_kept(k: Seq<Seq<char>>, rest: Seq<char>)
    requires
        forall|i: int|
            0 <= i < k.len() ==> kept_line(#[trigger] k[i]) && lacks(k[i], '\n') && strip_cr(k[i])
                == k[i],
    ensures
        lines_of(profile_body(k) + rest) == k + lines_of(rest),
    decreases k.len(),
{
    if k.len() == 0 {
        assert(profile_body(k) + rest =~= rest);
        assert(k + lines_of(rest) =~= lines_of(rest));
    } else {
        let tail = k.drop_first();
        assert forall|i: int| 0 <= i < tail.len() implies kept_line(#[trigger] tail[i]) && lacks(
            tail[i],
            '\n',
        ) && strip_cr(tail[i]) == tail[i] by {
            assert(tail[i] == k[i + 1]);
        }
        lemma_reparse_kept(tail, rest);
        assert(kept_line(k[0]) && lacks(k[0], '\n') && strip_cr(k[0]) == k[0]);
        assert(profile_body(k) + rest =~= k[0] + seq!['\n'] + (profile_body(tail) + rest));
        lemma_lines_after_line(k[0], profile_body(tail) + rest);
        assert(k =~= seq![k[0]] + tail);
        assert(seq![k[0]] + (tail + lines_of(rest)) =~= k + lines_of(rest));
    }
}

/// Registering is idempotent: registering the same line again leaves the profile as it is.
/// This holds for a line the profile itself drops on the next pass (ours names the shim
/// file) that is one line, without a trailing `\r`, over a profile none of whose kept lines
/// ends in a `\r` that `str::lines` leaves in place (as `"a\r"` at the very end does; the
/// first pass writes it back as `"a\r\n"`, which the second reads as `"a"`).
pub proof fn lemma_profile_text_idempotent(old: Seq<char>, line: Seq<char>)
    requires
        !kept_line(line),
        lacks(line, '\n'),
        strip_cr(line) == line,
        forall|i: int|
            0 <= i < lines_of(old).len() && kept_line(#[trigger] lines_of(old)[i]) ==> strip_cr(
                lines_of(old)[i],
            ) == lines_of(old)[i],
    ensures
        spec_profile_text(spec_profile_text(old, line), line) == spec_profile_text(old, line),
{
    let lines = lines_of(old);
    lemma_lines_lack_newlines(old);
    lemma_kept_lines(lines);
    let k = kept_lines(lines);
    assert forall|i: int| 0 <= i < k.len() implies kept_line(#[trigger] k[i]) && lacks(
        k[i],
        '\n',
    ) && strip_cr(k[i]) == k[i] by {
        assert(kept_line(k[i]) && lines.contains(k[i]));
        let j = choose|j: int| 0 <= j < lines.len() && lines[j] == k[i];
        assert(lacks(lines[j], '\n'));
    }
    let once = spec_profile_text(old, line);
    assert(once =~= profile_body(k) + (line + seq!['\n']));
    lemma_reparse_kept(k, line + seq!['\n']);
    assert(line + seq!['\n'] =~= line + seq!['\n'] + Seq::<char>::empty());
    lemma_lines_after_line(line, Seq::<char>::empty());
    assert(lines_of(line + seq!['\n']) =~= seq![line]);
    lemma_profile_body_append(k, seq![line]);
    let single = seq![line];
    assert(single[0] == line);
    assert(single.drop_first() =~= Seq::<Seq<char>>::empty());
    assert(profile_body(single.drop_first()) =~= Seq::<char>::empty());
    assert(profile_body(single) =~= Seq::<char>::empty());
}

/// The profile text after registering `line`.
pub fn profile_text(old: &str, line: &str) -> (r: String)
    ensures
        r@ == spec_profile_text(old@, line@),
{
    let cs = chars_of(old);
    let n = cs.len();
    let mut out = String::new();
    let mut i: usize = 0;
    assert(cs@.subrange(0, n as int) =~= old@);
    while i < n
        invariant
            i <= n,
            n == cs.len(),
            cs@ == old@,
            out@ + profile_body(lines_of(cs@.subrange(i as int, n as int))) == profile_body(
                lines_of(old@),
            ),
        decreases n - i,
    {
        let mut j = i;
        while j < n && cs[j] != '\n'
            invariant
                i <= j <= n,
                n == cs.len(),
                forall|m: int| i <= m < j ==> cs@[m] != '\n',
            decreases n - j,
        {
            j += 1;
        }
        let end = if j < n && j > i && cs[j - 1] == '\r' {
            j - 1
        } else {
            j
        };
        let l = string_of_range(&cs, i, end);
        let ghost rest = cs@.subrange(i as int, n as int);
        let ghost before = out@;
        proof {
            lemma_first_newline(rest, (j - i) as int);
            assert(rest.subrange(0, (j - i) as int) =~= cs@.subrange(i as int, j as int));
            if j < n {
                assert(rest.subrange((j - i) + 1, rest.len() as int) =~= cs@.subrange(
                    j + 1,
                    n as int,
                ));
                assert(strip_cr(cs@.subrange(i as int, j as int)) =~= l@);
            } else {
                assert(rest =~= l@);
            }
            let ls = lines_of(rest);
            assert(ls[0] == l@);
            if j < n {
                assert(ls.drop_first() =~= lines_of(cs@.subrange(j + 1, n as int)));
            } else {
                assert(ls.drop_first() =~= Seq::<Seq<char>>::empty());
                assert(cs@.subrange(n as int, n as int) =~= Seq::<char>::empty());
            }
        }
        let keep = !contains_str(l.as_str(), POE_REGISTRATION) && !contains_str(
            l.as_str(),
            SHIM_FILE_NAME,
        );
        if keep {
            out.append(l.as_str());
            push_char(&mut out, '\n');
        }
        proof {
            let piece = if kept_line(l@) {
                l@.push('\n')
            } else {
                seq![]
            };
            assert(out@ =~= before + piece);
        }
        i = if j < n {
            j + 1
        } else {
            n
        };
    }
    out.append(line);
    push_char(&mut out, '\n');
    proof {
        assert(cs@.subrange(n as int, n as int) =~= Seq::<char>::empty());
        assert(out@ =~= profile_body(lines_of(old@)) + line@ + seq!['\n']);
    }
    out
}

} // verus!
