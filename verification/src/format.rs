//! Render the resolved table in the exact text formats poe's completion scripts consume.
//!
//! Byte-compatibility matters: the generated shell scripts parse these with `-split`,
//! `read -r`, and friends, so any drift from `poe _list_tasks` / `poe _describe_task_args`
//! would show up as broken completions rather than as an error.

use vstd::prelude::*;

use crate::resolve::{Task, TaskArg, TaskArgView, TaskView, args_view, tasks_view};
use crate::text::{chars_of, push_char, string_of_range};
use crate::words::{char_is_whitespace, is_white_space};

verus! {

/// Help longer than this is cut with an ellipsis; a completion popup has no room for more.
pub const MAX_HELP: usize = 60;

/// `parts` joined with `sep` between neighbours.
pub open spec fn joined(parts: Seq<Seq<char>>, sep: Seq<char>) -> Seq<char>
    decreases parts.len(),
{
    if parts.len() == 0 {
        seq![]
    } else if parts.len() == 1 {
        parts[0]
    } else {
        joined(parts.drop_last(), sep) + sep + parts.last()
    }
}

/// The names of `tasks`.
pub open spec fn task_names(tasks: Seq<TaskView>) -> Seq<Seq<char>> {
    tasks.map_values(|t: TaskView| t.name)
}

/// `poe _list_tasks`: the names on one space-separated line.
pub open spec fn spec_list_tasks(tasks: Seq<TaskView>) -> Seq<char> {
    joined(task_names(tasks), seq![' ']) + seq!['\n']
}

/// Index of the first `c` in `s`, or `s.len()` when there is none.
pub open spec fn index_or_end(s: Seq<char>, c: char) -> int
    decreases s.len(),
{
    if s.len() == 0 {
        0
    } else if s[0] == c {
        0
    } else {
        1 + index_or_end(s.drop_first(), c)
    }
}

/// The first line of `text` as `str::lines` yields it: up to the first `\n`, without the
/// `\r` of a `\r\n` ending.
pub open spec fn first_line(text: Seq<char>) -> Seq<char> {
    let k = index_or_end(text, '\n');
    if k < text.len() && k > 0 && text[k - 1] == '\r' {
        text.subrange(0, k - 1)
    } else {
        text.subrange(0, k)
    }
}

/// `s` without leading whitespace.
pub open spec fn trim_start(s: Seq<char>) -> Seq<char>
    decreases s.len(),
{
    if s.len() > 0 && is_white_space(s[0]) {
        trim_start(s.drop_first())
    } else {
        s
    }
}

/// `s` without trailing whitespace.
pub open spec fn trim_end(s: Seq<char>) -> Seq<char>
    decreases s.len(),
{
    if s.len() > 0 && is_white_space(s.last()) {
        trim_end(s.drop_last())
    } else {
        s
    }
}

/// `s` without leading or trailing whitespace.
pub open spec fn trim(s: Seq<char>) -> Seq<char> {
    trim_end(trim_start(s))
}

/// The escaped form of one help character: `\` doubled, `:` backslashed (it is zsh's
/// description separator), a tab made a space.
pub open spec fn escape_help_char(c: char) -> Seq<char> {
    if c == '\\' {
        seq!['\\', '\\']
    } else if c == ':' {
        seq!['\\', ':']
    } else if c == '\t' {
        seq![' ']
    } else {
        seq![c]
    }
}

/// `s` with every character escaped by [`escape_help_char`].
pub open spec fn escape_help(s: Seq<char>) -> Seq<char>
    decreases s.len(),
{
    if s.len() == 0 {
        seq![]
    } else {
        escape_help(s.drop_last()) + escape_help_char(s.last())
    }
}

/// The help line cut to [`MAX_HELP`] characters with `...` when longer.
pub open spec fn truncated(line: Seq<char>) -> Seq<char> {
    if line.len() > MAX_HELP {
        trim_end(line.subrange(0, MAX_HELP - 3)) + seq!['.', '.', '.']
    } else {
        line
    }
}

/// poe's `_format_help`: first line only, trimmed, truncated at 60 characters, escaped; a
/// single space when nothing is left, so the column stays present.
pub open spec fn spec_format_help(text: Seq<char>) -> Seq<char> {
    let line = trim(first_line(text));
    if line.len() == 0 {
        seq![' ']
    } else {
        escape_help(truncated(line))
    }
}

/// The characters that make a choice need quoting.
pub open spec fn is_special(c: char) -> bool {
    c == ' ' || c == '\t' || c == '\n' || c == '"' || c == '\'' || c == '\\' || c == '$' || c
        == '`'
}

/// `s` with each `'` spliced as `'\''`.
pub open spec fn splice_quotes(s: Seq<char>) -> Seq<char>
    decreases s.len(),
{
    if s.len() == 0 {
        seq![]
    } else if s.last() == '\'' {
        splice_quotes(s.drop_last()) + seq!['\'', '\\', '\'', '\'']
    } else {
        splice_quotes(s.drop_last()).push(s.last())
    }
}

/// poe's `_escape_choice`: single-quote a value containing shell-significant characters.
pub open spec fn spec_escape_choice(value: Seq<char>) -> Seq<char> {
    if exists|i: int| 0 <= i < value.len() && is_special(#[trigger] value[i]) {
        seq!['\''] + splice_quotes(value) + seq!['\'']
    } else {
        value
    }
}

/// The non-empty choices, escaped, in order.
pub open spec fn escaped_choices(choices: Seq<Seq<char>>) -> Seq<Seq<char>>
    decreases choices.len(),
{
    if choices.len() == 0 {
        seq![]
    } else if choices.last().len() == 0 {
        escaped_choices(choices.drop_last())
    } else {
        escaped_choices(choices.drop_last()).push(spec_escape_choice(choices.last()))
    }
}

/// The choices column: the escaped choices separated by spaces, or `_` when there are none
/// (`read` collapses consecutive tabs, so the column cannot be empty).
pub open spec fn choices_field(choices: Seq<Seq<char>>) -> Seq<char> {
    let cs = escaped_choices(choices);
    if cs.len() == 0 {
        seq!['_']
    } else {
        joined(cs, seq![' '])
    }
}

/// One `options\ttype\thelp\tchoices` line.
pub open spec fn arg_line(a: TaskArgView) -> Seq<char> {
    joined(a.options, seq![',']) + seq!['\t'] + a.kind + seq!['\t'] + spec_format_help(a.help)
        + seq!['\t'] + choices_field(a.choices) + seq!['\n']
}

/// The lines of all of `args`, in order.
pub open spec fn arg_lines(args: Seq<TaskArgView>) -> Seq<char>
    decreases args.len(),
{
    if args.len() == 0 {
        seq![]
    } else {
        arg_lines(args.drop_last()) + arg_line(args.last())
    }
}

/// `parts` joined by `sep`.
fn join_strings(parts: &Vec<String>, sep: char) -> (r: String)
    ensures
        r@ == joined(parts.deep_view(), seq![sep]),
{
    let ghost ps = parts.deep_view();
    let mut out = String::new();
    let mut i: usize = 0;
    while i < parts.len()
        invariant
            i <= parts.len(),
            ps == parts.deep_view(),
            out@ == joined(ps.take(i as int), seq![sep]),
        decreases parts.len() - i,
    {
        assert(ps.take(i + 1).drop_last() =~= ps.take(i as int));
        assert(ps.take(i + 1).last() == parts[i as int]@);
        if i > 0 {
            push_char(&mut out, sep);
        } else {
            assert(out@ =~= seq![]);
        }
        out.append(parts[i].as_str());
        assert(out@ =~= joined(ps.take(i + 1), seq![sep]));
        i += 1;
    }
    assert(ps.take(parts@.len() as int) =~= ps);
    out
}

/// `poe _list_tasks`: names on one space-separated line.
pub fn list_tasks(tasks: &[Task]) -> (r: String)
    ensures
        r@ == spec_list_tasks(tasks_view(tasks@)),
{
    let ghost tv = tasks_view(tasks@);
    let mut names: Vec<String> = Vec::new();
    let mut i: usize = 0;
    while i < tasks.len()
        invariant
            i <= tasks.len(),
            tv == tasks_view(tasks@),
            names.deep_view() == task_names(tv.take(i as int)),
        decreases tasks.len() - i,
    {
        let ghost before = names.deep_view();
        let name = tasks[i].name.clone();
        assert(name@ == tv[i as int].name);
        names.push(name);
        assert(names.deep_view() =~= before.push(tv[i as int].name));
        assert(task_names(tv.take(i + 1)) =~= task_names(tv.take(i as int)).push(tv[i as int].name));
        i += 1;
    }
    assert(tv.take(tasks@.len() as int) =~= tv);
    let mut out = join_strings(&names, ' ');
    push_char(&mut out, '\n');
    out
}

/// `lo'` such that `cs[lo'..hi]` is `cs[lo..hi]` without leading whitespace.
fn skip_leading_whitespace(cs: &Vec<char>, lo: usize, hi: usize) -> (r: usize)
    requires
        lo <= hi <= cs.len(),
    ensures
        lo <= r <= hi,
        cs@.subrange(r as int, hi as int) == trim_start(cs@.subrange(lo as int, hi as int)),
{
    let mut i = lo;
    while i < hi && char_is_whitespace(cs[i])
        invariant
            lo <= i <= hi <= cs.len(),
            trim_start(cs@.subrange(i as int, hi as int)) == trim_start(
                cs@.subrange(lo as int, hi as int),
            ),
        decreases hi - i,
    {
        assert(cs@.subrange(i as int, hi as int).drop_first() =~= cs@.subrange(i + 1, hi as int));
        i += 1;
    }
    i
}

/// `hi'` such that `cs[lo..hi']` is `cs[lo..hi]` without trailing whitespace.
fn skip_trailing_whitespace(cs: &Vec<char>, lo: usize, hi: usize) -> (r: usize)
    requires
        lo <= hi <= cs.len(),
    ensures
        lo <= r <= hi,
        cs@.subrange(lo as int, r as int) == trim_end(cs@.subrange(lo as int, hi as int)),
{
    let mut j = hi;
    while j > lo && char_is_whitespace(cs[j - 1])
        invariant
            lo <= j <= hi <= cs.len(),
            trim_end(cs@.subrange(lo as int, j as int)) == trim_end(
                cs@.subrange(lo as int, hi as int),
            ),
        decreases j,
    {
        assert(cs@.subrange(lo as int, j as int).drop_last() =~= cs@.subrange(lo as int, j - 1));
        j -= 1;
    }
    j
}

/// `s` without leading or trailing whitespace.
pub fn trimmed(s: &str) -> (r: String)
    ensures
        r@ == trim(s@),
{
    let cs = chars_of(s);
    let n = cs.len();
    assert(cs@.subrange(0, n as int) =~= s@);
    let lo = skip_leading_whitespace(&cs, 0, n);
    let hi = skip_trailing_whitespace(&cs, lo, n);
    string_of_range(&cs, lo, hi)
}

/// Appends the escaped form of `cs[lo..hi]` to `out`.
fn push_escaped_help(out: &mut String, cs: &Vec<char>, lo: usize, hi: usize)
    requires
        lo <= hi <= cs.len(),
    ensures
        final(out)@ == old(out)@ + escape_help(cs@.subrange(lo as int, hi as int)),
{
    let ghost start = out@;
    let mut i = lo;
    while i < hi
        invariant
            lo <= i <= hi <= cs.len(),
            out@ == start + escape_help(cs@.subrange(lo as int, i as int)),
        decreases hi - i,
    {
        let c = cs[i];
        if c == '\\' {
            push_char(out, '\\');
            push_char(out, '\\');
        } else if c == ':' {
            push_char(out, '\\');
            push_char(out, ':');
        } else if c == '\t' {
            push_char(out, ' ');
        } else {
            push_char(out, c);
        }
        assert(cs@.subrange(lo as int, i + 1).drop_last() =~= cs@.subrange(lo as int, i as int));
        assert(out@ =~= start + escape_help(cs@.subrange(lo as int, i + 1)));
        i += 1;
    }
}

/// End of the first line of `cs`, as `str::lines` cuts it.
fn first_line_end(cs: &Vec<char>) -> (r: usize)
    ensures
        r <= cs.len(),
        cs@.subrange(0, r as int) == first_line(cs@),
{
    let mut k: usize = 0;
    assert(cs@.subrange(0, cs@.len() as int) =~= cs@);
    while k < cs.len() && cs[k] != '\n'
        invariant
            k <= cs.len(),
            index_or_end(cs@, '\n') == k + index_or_end(cs@.subrange(k as int, cs@.len() as int), '\n'),
        decreases cs.len() - k,
    {
        assert(cs@.subrange(k as int, cs@.len() as int).drop_first() =~= cs@.subrange(
            k + 1,
            cs@.len() as int,
        ));
        k += 1;
    }
    if k < cs.len() && k > 0 && cs[k - 1] == '\r' {
        k - 1
    } else {
        k
    }
}

/// The help column for the trimmed, non-empty line `cs[lo..hi]`.
fn help_of_line(cs: &Vec<char>, lo: usize, hi: usize) -> (r: String)
    requires
        lo < hi <= cs.len(),
    ensures
        r@ == escape_help(truncated(cs@.subrange(lo as int, hi as int))),
{
    let ghost line = cs@.subrange(lo as int, hi as int);
    let mut out = String::new();
    if hi - lo > MAX_HELP {
        let cut = skip_trailing_whitespace(cs, lo, lo + (MAX_HELP - 3));
        assert(cs@.subrange(lo as int, lo + (MAX_HELP - 3)) =~= line.subrange(0, MAX_HELP - 3));
        push_escaped_help(&mut out, cs, lo, cut);
        push_char(&mut out, '.');
        push_char(&mut out, '.');
        push_char(&mut out, '.');
        proof {
            let kept = cs@.subrange(lo as int, cut as int);
            lemma_escape_help_append(kept, seq!['.', '.', '.']);
            assert(escape_help(seq!['.', '.', '.']) =~= seq!['.', '.', '.']) by {
                reveal_with_fuel(escape_help, 4);
            }
            assert(out@ =~= escape_help(kept) + seq!['.', '.', '.']);
        }
    } else {
        push_escaped_help(&mut out, cs, lo, hi);
        assert(out@ =~= escape_help(line));
    }
    out
}

/// Mirror of poe's `_format_help`: first line only, truncated with `...` at 60 chars, with
/// `\`, `:` and tab escaped (`:` is zsh's description separator).
pub fn format_help(text: &str) -> (r: String)
    ensures
        r@ == spec_format_help(text@),
{
    let cs = chars_of(text);
    let end = first_line_end(&cs);
    let lo = skip_leading_whitespace(&cs, 0, end);
    let hi = skip_trailing_whitespace(&cs, lo, end);
    assert(cs@.subrange(lo as int, hi as int) == trim(first_line(text@)));
    if hi == lo {
        let mut out = String::new();
        push_char(&mut out, ' ');
        assert(out@ =~= seq![' ']);
        return out;
    }
    help_of_line(&cs, lo, hi)
}

/// `s` holds no `c`.
pub open spec fn lacks(s: Seq<char>, c: char) -> bool {
    forall|i: int| 0 <= i < s.len() ==> s[i] != c
}

/// The first `c` in `s` is at `index_or_end(s, c)`, which lies within `s` or at its end,
/// and nothing before it is a `c`.
pub proof fn lemma_index_or_end(s: Seq<char>, c: char)
    ensures
        0 <= index_or_end(s, c) <= s.len(),
        lacks(s.subrange(0, index_or_end(s, c)), c),
    decreases s.len(),
{
    if s.len() > 0 && s[0] != c {
        let t = s.drop_first();
        lemma_index_or_end(t, c);
        let k = index_or_end(s, c);
        assert forall|i: int| 0 <= i < k implies s.subrange(0, k)[i] != c by {
            if i > 0 {
                assert(s[i] == t[i - 1]);
                assert(t.subrange(0, k - 1)[i - 1] == t[i - 1]);
            }
        }
    }
}

proof fn lemma_trim_start_keeps_lacks(s: Seq<char>, c: char)
    requires
        lacks(s, c),
    ensures
        lacks(trim_start(s), c),
    decreases s.len(),
{
    if s.len() > 0 {
        lemma_trim_start_keeps_lacks(s.drop_first(), c);
    }
}

proof fn lemma_trim_end_keeps_lacks(s: Seq<char>, c: char)
    requires
        lacks(s, c),
    ensures
        lacks(trim_end(s), c),
    decreases s.len(),
{
    if s.len() > 0 {
        lemma_trim_end_keeps_lacks(s.drop_last(), c);
    }
}

proof fn lemma_trim_keeps_lacks(s: Seq<char>, c: char)
    requires
        lacks(s, c),
    ensures
        lacks(trim(s), c),
{
    lemma_trim_start_keeps_lacks(s, c);
    lemma_trim_end_keeps_lacks(trim_start(s), c);
}

proof fn lemma_escape_help_clean(s: Seq<char>)
    ensures
        lacks(escape_help(s), '\t'),
        lacks(s, '\n') ==> lacks(escape_help(s), '\n'),
        escape_help(s).len() >= s.len(),
    decreases s.len(),
{
    if s.len() > 0 {
        lemma_escape_help_clean(s.drop_last());
    }
}

/// The help column never breaks the line format: it holds no tab and no newline, and it is
/// never empty, whatever the help text is.
pub proof fn lemma_help_is_one_column(text: Seq<char>)
    ensures
        lacks(spec_format_help(text), '\t'),
        lacks(spec_format_help(text), '\n'),
        spec_format_help(text).len() > 0,
{
    lemma_index_or_end(text, '\n');
    let k = index_or_end(text, '\n');
    let first = first_line(text);
    assert(lacks(first, '\n')) by {
        assert forall|i: int| 0 <= i < first.len() implies first[i] != '\n' by {
            assert(first[i] == text.subrange(0, k)[i]);
        }
    }
    lemma_trim_keeps_lacks(first, '\n');
    let line = trim(first);
    if line.len() > 0 {
        let cut = truncated(line);
        if line.len() > MAX_HELP {
            let head = line.subrange(0, MAX_HELP - 3);
            assert(lacks(head, '\n'));
            lemma_trim_end_keeps_lacks(head, '\n');
            assert(lacks(cut, '\n'));
        }
        lemma_escape_help_clean(cut);
    }
}

proof fn lemma_index_or_end_absent(s: Seq<char>, c: char)
    requires
        lacks(s, c),
    ensures
        index_or_end(s, c) == s.len(),
    decreases s.len(),
{
    if s.len() > 0 {
        lemma_index_or_end_absent(s.drop_first(), c);
    }
}

/// Only the first line of a help text counts: its help is that of its first line alone.
pub proof fn lemma_help_first_line_only(text: Seq<char>)
    ensures
        spec_format_help(text) == spec_format_help(first_line(text)),
{
    lemma_index_or_end(text, '\n');
    let k = index_or_end(text, '\n');
    let first = first_line(text);
    assert(lacks(first, '\n')) by {
        assert forall|i: int| 0 <= i < first.len() implies first[i] != '\n' by {
            assert(first[i] == text.subrange(0, k)[i]);
        }
    }
    lemma_index_or_end_absent(first, '\n');
    assert(first.subrange(0, first.len() as int) =~= first);
    assert(first_line(first) == first);
}

/// Escaping distributes over concatenation.
proof fn lemma_escape_help_append(a: Seq<char>, b: Seq<char>)
    ensures
        escape_help(a + b) == escape_help(a) + escape_help(b),
    decreases b.len(),
{
    if b.len() == 0 {
        assert(a + b =~= a);
        assert(escape_help(b) =~= seq![]);
        assert(escape_help(a) + escape_help(b) =~= escape_help(a));
    } else {
        lemma_escape_help_append(a, b.drop_last());
        assert((a + b).drop_last() =~= a + b.drop_last());
        assert((a + b).last() == b.last());
        assert(escape_help(a + b) =~= escape_help(a) + escape_help(b));
    }
}

/// Mirror of poe's `_escape_choice`: single-quote a value containing shell-significant
/// characters, splicing embedded single quotes as `'\''` (end quote, escaped quote, reopen).
pub fn escape_choice(value: &str) -> (r: String)
    ensures
        r@ == spec_escape_choice(value@),
{
    let cs = chars_of(value);
    let mut special = false;
    let mut i: usize = 0;
    while i < cs.len()
        invariant
            i <= cs.len(),
            cs@ == value@,
            special == exists|j: int| 0 <= j < i && is_special(#[trigger] cs@[j]),
        decreases cs.len() - i,
    {
        let c = cs[i];
        if c == ' ' || c == '\t' || c == '\n' || c == '"' || c == '\'' || c == '\\' || c == '$'
            || c == '`' {
            special = true;
        }
        i += 1;
    }
    if !special {
        return string_of_range(&cs, 0, cs.len());
    }
    let mut out = String::new();
    push_char(&mut out, '\'');
    let ghost start = out@;
    let mut i: usize = 0;
    while i < cs.len()
        invariant
            i <= cs.len(),
            cs@ == value@,
            start == seq!['\''],
            out@ == start + splice_quotes(cs@.take(i as int)),
        decreases cs.len() - i,
    {
        let c = cs[i];
        if c == '\'' {
            push_char(&mut out, '\'');
            push_char(&mut out, '\\');
            push_char(&mut out, '\'');
            push_char(&mut out, '\'');
        } else {
            push_char(&mut out, c);
        }
        assert(cs@.take(i + 1).drop_last() =~= cs@.take(i as int));
        assert(out@ =~= start + splice_quotes(cs@.take(i + 1)));
        i += 1;
    }
    push_char(&mut out, '\'');
    assert(cs@.take(cs@.len() as int) =~= cs@);
    out
}

/// The choices column for `choices`.
fn format_choices(choices: &Vec<String>) -> (r: String)
    ensures
        r@ == choices_field(choices.deep_view()),
{
    let ghost cv = choices.deep_view();
    let mut escaped: Vec<String> = Vec::new();
    let mut i: usize = 0;
    while i < choices.len()
        invariant
            i <= choices.len(),
            cv == choices.deep_view(),
            escaped.deep_view() == escaped_choices(cv.take(i as int)),
        decreases choices.len() - i,
    {
        let c = choices[i].as_str();
        assert(cv.take(i + 1).drop_last() =~= cv.take(i as int));
        assert(cv.take(i + 1).last() == c@);
        if c.unicode_len() > 0 {
            let ghost before = escaped.deep_view();
            escaped.push(escape_choice(c));
            assert(escaped.deep_view() =~= before.push(spec_escape_choice(c@)));
        }
        i += 1;
    }
    assert(cv.take(choices@.len() as int) =~= cv);
    if escaped.len() == 0 {
        let mut out = String::new();
        push_char(&mut out, '_');
        out
    } else {
        join_strings(&escaped, ' ')
    }
}

/// One `options\ttype\thelp\tchoices` line for `a`.
fn describe_arg(a: &TaskArg) -> (r: String)
    ensures
        r@ == arg_line(a@),
{
    let mut out = join_strings(&a.options, ',');
    push_char(&mut out, '\t');
    out.append(a.kind.as_str());
    push_char(&mut out, '\t');
    out.append(format_help(a.help.as_str()).as_str());
    push_char(&mut out, '\t');
    out.append(format_choices(&a.choices).as_str());
    push_char(&mut out, '\n');
    assert(out@ =~= arg_line(a@));
    out
}

/// `poe _describe_task_args`: one tab-separated `options\ttype\thelp\tchoices` line per
/// argument. Positionals print their single placeholder name; options print all spellings.
pub fn describe_task_args(task: &Task) -> (r: String)
    ensures
        r@ == arg_lines(task@.args),
{
    let ghost av = task@.args;
    let mut out = String::new();
    let mut i: usize = 0;
    while i < task.args.len()
        invariant
            i <= task.args.len(),
            av == args_view(task.args@),
            out@ == arg_lines(av.take(i as int)),
        decreases task.args.len() - i,
    {
        out.append(describe_arg(&task.args[i]).as_str());
        assert(av.take(i + 1).drop_last() =~= av.take(i as int));
        assert(av.take(i + 1).last() == task.args[i as int]@);
        assert(out@ =~= arg_lines(av.take(i + 1)));
        i += 1;
    }
    assert(av.take(task.args@.len() as int) =~= av);
    out
}

} // verus!
