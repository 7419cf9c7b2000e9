//! Scan a poe command line: where is the task, which directory was targeted, are we past
//! the `--` separator.
//!
//! Every constant and rule here follows the completion scripts poe itself generates.

use vstd::prelude::*;

use crate::text::{chars_of, find_char, str_eq};

verus! {

/// poe's global options, in the order they should be offered.
pub const GLOBAL_OPTIONS: [&'static str; 17] = [
    "-h",
    "--help",
    "--version",
    "-v",
    "--verbose",
    "-q",
    "--quiet",
    "-d",
    "--dry-run",
    "-C",
    "--directory",
    "-e",
    "--executor",
    "-X",
    "--executor-opt",
    "--ansi",
    "--no-ansi",
];

/// Globals that consume the following word, so a left-to-right scan must skip that word or
/// it would mistake the value for the task name.
pub const OPTIONS_WITH_VALUES: [&'static str; 8] = [
    "-h",
    "--help",
    "-C",
    "--directory",
    "-e",
    "--executor",
    "-X",
    "--executor-opt",
];

/// Spellings that name the project directory. `--root` is honoured by poe's own scripts
/// here even though it is absent from [`GLOBAL_OPTIONS`]; that asymmetry is poe's, kept.
pub const DIRECTORY_OPTIONS: [&'static str; 3] = ["-C", "--directory", "--root"];

/// Spellings of the executor option, whose value is one of [`EXECUTORS`].
pub const EXECUTOR_OPTIONS: [&'static str; 2] = ["-e", "--executor"];

/// Valid `-e` / `--executor` values, offered as choices.
pub const EXECUTORS: [&'static str; 5] = ["auto", "poetry", "simple", "uv", "virtualenv"];

/// The character sequences of a list of string slices.
pub open spec fn strs(list: Seq<&str>) -> Seq<Seq<char>> {
    list.map_values(|s: &str| s@)
}

/// Whether `s` is one of `list`.
pub fn in_list(list: &[&str], s: &str) -> (r: bool)
    ensures
        r == strs(list@).contains(s@),
{
    let mut i: usize = 0;
    while i < list.len()
        invariant
            i <= list.len(),
            forall|j: int| 0 <= j < i ==> list@[j]@ != s@,
        decreases list.len() - i,
    {
        if str_eq(list[i], s) {
            assert(strs(list@)[i as int] == s@);
            return true;
        }
        i += 1;
    }
    assert forall|j: int| 0 <= j < strs(list@).len() implies strs(list@)[j] != s@ by {
        assert(strs(list@)[j] == list@[j]@);
    }
    false
}

/// A word that poe reads as an option: it starts with `-` and is not the `--` separator.
pub open spec fn is_option_word(w: Seq<char>) -> bool {
    w.len() > 0 && w[0] == '-' && w != "--"@
}

/// Index of the first `=` in `w` (meaningful when `w` contains one).
pub open spec fn first_equals(w: Seq<char>) -> int {
    choose|i: int| 0 <= i < w.len() && w[i] == '=' && !w.subrange(0, i).contains('=')
}

/// The option name of `w`: everything before its first `=`, or all of it.
pub open spec fn inline_name(w: Seq<char>) -> Seq<char> {
    if w.contains('=') {
        w.subrange(0, first_equals(w))
    } else {
        w
    }
}

/// The inline value of `w`: everything after its first `=`, if it has one.
pub open spec fn inline_value(w: Seq<char>) -> Option<Seq<char>> {
    if w.contains('=') {
        Some(w.subrange(first_equals(w) + 1, w.len() as int))
    } else {
        None
    }
}

/// The first `=` is unique: any index meeting its description is it.
pub proof fn lemma_first_equals(w: Seq<char>, i: int)
    requires
        0 <= i < w.len(),
        w[i] == '=',
        !w.subrange(0, i).contains('='),
    ensures
        w.contains('='),
        first_equals(w) == i,
{
    assert(w[i] == '=');
    let j = first_equals(w);
    if j < i {
        assert(w.subrange(0, i)[j] == '=');
    } else if j > i {
        assert(w.subrange(0, j)[i] == '=');
    }
}

/// Split `-C=../x` into its option name and inline value.
///
/// Returns `(name, Some(value))` for the inline form and `(whole, None)` otherwise.
pub fn split_inline(word: &str) -> (r: (&str, Option<&str>))
    ensures
        r.0@ == inline_name(word@),
        match r.1 {
            Some(v) => inline_value(word@) == Some(v@),
            None => inline_value(word@) is None,
        },
{
    let cs = chars_of(word);
    let n = cs.len();
    match find_char(&cs, '=') {
        Some(i) => {
            assert(i < n);
            proof {
                lemma_first_equals(word@, i as int);
            }
            let name = word.substring_char(0, i);
            let value = word.substring_char(i + 1, n);
            (name, Some(value))
        },
        None => (word, None),
    }
}

/// Whether `word` reads as an option.
pub fn is_option(word: &str) -> (r: bool)
    ensures
        r == is_option_word(word@),
{
    let cs = chars_of(word);
    cs.len() > 0 && cs[0] == '-' && !str_eq(word, "--")
}

/// What the exclusion table says of `opt`: which spellings become redundant once it is
/// present.
pub open spec fn spec_exclusions(opt: Seq<char>) -> Seq<Seq<char>> {
    if opt == "-h"@ || opt == "--help"@ {
        seq!["--help"@, "-h"@]
    } else if opt == "--version"@ {
        seq!["--version"@]
    } else if opt == "-v"@ || opt == "--verbose"@ {
        seq!["--quiet"@, "-q"@]
    } else if opt == "-q"@ || opt == "--quiet"@ {
        seq!["--verbose"@, "-v"@]
    } else if opt == "-d"@ || opt == "--dry-run"@ {
        seq!["--dry-run"@, "-d"@]
    } else if opt == "-C"@ || opt == "--directory"@ {
        seq!["--directory"@, "-C"@]
    } else if opt == "-e"@ || opt == "--executor"@ {
        seq!["--executor"@, "-e"@]
    } else if opt == "--ansi"@ || opt == "--no-ansi"@ {
        seq!["--ansi"@, "--no-ansi"@]
    } else {
        // `-X` / `--executor-opt` may be repeated, so nothing is suppressed.
        seq![]
    }
}

/// What each spelling poe knows excludes: both spellings of an option exclude the same.
pub proof fn lemma_exclusions_of_spellings()
    ensures
        spec_exclusions("-h"@) == seq!["--help"@, "-h"@],
        spec_exclusions("--help"@) == seq!["--help"@, "-h"@],
        spec_exclusions("--version"@) == seq!["--version"@],
        spec_exclusions("-v"@) == seq!["--quiet"@, "-q"@],
        spec_exclusions("--verbose"@) == seq!["--quiet"@, "-q"@],
        spec_exclusions("-q"@) == seq!["--verbose"@, "-v"@],
        spec_exclusions("--quiet"@) == seq!["--verbose"@, "-v"@],
        spec_exclusions("-d"@) == seq!["--dry-run"@, "-d"@],
        spec_exclusions("--dry-run"@) == seq!["--dry-run"@, "-d"@],
        spec_exclusions("-C"@) == seq!["--directory"@, "-C"@],
        spec_exclusions("--directory"@) == seq!["--directory"@, "-C"@],
        spec_exclusions("-e"@) == seq!["--executor"@, "-e"@],
        spec_exclusions("--executor"@) == seq!["--executor"@, "-e"@],
        spec_exclusions("--ansi"@) == seq!["--ansi"@, "--no-ansi"@],
        spec_exclusions("--no-ansi"@) == seq!["--ansi"@, "--no-ansi"@],
{
    reveal_strlit("-h");
    reveal_strlit("--help");
    reveal_strlit("--version");
    reveal_strlit("-v");
    reveal_strlit("--verbose");
    reveal_strlit("-q");
    reveal_strlit("--quiet");
    reveal_strlit("-d");
    reveal_strlit("--dry-run");
    reveal_strlit("-C");
    reveal_strlit("--directory");
    reveal_strlit("-e");
    reveal_strlit("--executor");
    reveal_strlit("--ansi");
    reveal_strlit("--no-ansi");
    // Spellings of one length differ at their second, third or sixth character.
    assert("-h"@[1] == 'h');
    assert("--help"@[2] == 'h');
    assert("--help"@[5] == 'p');
    assert("--version"@[2] == 'v');
    assert("--version"@[5] == 's');
    assert("-v"@[1] == 'v');
    assert("--verbose"@[2] == 'v');
    assert("--verbose"@[5] == 'b');
    assert("-q"@[1] == 'q');
    assert("--quiet"@[2] == 'q');
    assert("--quiet"@[5] == 'e');
    assert("-d"@[1] == 'd');
    assert("--dry-run"@[2] == 'd');
    assert("--dry-run"@[5] == '-');
    assert("-C"@[1] == 'C');
    assert("--directory"@[2] == 'd');
    assert("--directory"@[5] == 'e');
    assert("-e"@[1] == 'e');
    assert("--executor"@[2] == 'e');
    assert("--executor"@[5] == 'c');
    assert("--ansi"@[2] == 'a');
    assert("--ansi"@[5] == 'i');
    assert("--no-ansi"@[2] == 'n');
    assert("--no-ansi"@[5] == 'a');
}

/// Exclusion is mutual: when one option makes another redundant, the other makes the first
/// redundant too, so the order in which the two are typed never matters.
pub proof fn lemma_exclusions_mutual(a: Seq<char>, b: Seq<char>)
    requires
        spec_exclusions(a).contains(b),
    ensures
        spec_exclusions(b).contains(a),
{
    lemma_exclusions_of_spellings();
    let ex = spec_exclusions(a);
    let i = choose|i: int| 0 <= i < ex.len() && ex[i] == b;
    assert(ex[i] == b);
    assert(ex.len() > 0);
    if ex.len() == 2 {
        assert(b == ex[0] || b == ex[1]);
    }
}

/// Exclusions name global options only: every spelling an option makes redundant is one
/// of poe's global options, and an option makes something redundant exactly when it is a
/// global option other than the repeatable `-X` / `--executor-opt`.
pub proof fn lemma_exclusions_are_globals(a: Seq<char>)
    ensures
        forall|b: Seq<char>| spec_exclusions(a).contains(b) ==> strs(GLOBAL_OPTIONS@).contains(b),
        spec_exclusions(a).len() > 0 <==> (strs(GLOBAL_OPTIONS@).contains(a) && a != "-X"@ && a
            != "--executor-opt"@),
{
    lemma_exclusions_of_spellings();
    reveal_strlit("-X");
    reveal_strlit("--executor-opt");
    assert("-X"@[1] == 'X');
    assert("--executor-opt"@.len() == 14);
    reveal_strlit("-h");
    reveal_strlit("--help");
    reveal_strlit("--version");
    reveal_strlit("-v");
    reveal_strlit("--verbose");
    reveal_strlit("-q");
    reveal_strlit("--quiet");
    reveal_strlit("-d");
    reveal_strlit("--dry-run");
    reveal_strlit("-C");
    reveal_strlit("--directory");
    reveal_strlit("-e");
    reveal_strlit("--executor");
    reveal_strlit("--ansi");
    reveal_strlit("--no-ansi");
    assert("-h"@[1] == 'h');
    assert("-v"@[1] == 'v');
    assert("-q"@[1] == 'q');
    assert("-d"@[1] == 'd');
    assert("-C"@[1] == 'C');
    assert("-e"@[1] == 'e');
    let g = strs(GLOBAL_OPTIONS@);
    assert(g =~= seq!["-h"@, "--help"@, "--version"@, "-v"@, "--verbose"@, "-q"@, "--quiet"@, "-d"@, "--dry-run"@, "-C"@, "--directory"@, "-e"@, "--executor"@, "-X"@, "--executor-opt"@, "--ansi"@, "--no-ansi"@]);
    assert forall|b: Seq<char>| spec_exclusions(a).contains(b) implies g.contains(b) by {
        let ex = spec_exclusions(a);
        let i = choose|i: int| 0 <= i < ex.len() && ex[i] == b;
        assert(ex[i] == b);
        if b == "-h"@ { assert(g[0] == b); }
        if b == "--help"@ { assert(g[1] == b); }
        if b == "--version"@ { assert(g[2] == b); }
        if b == "-v"@ { assert(g[3] == b); }
        if b == "--verbose"@ { assert(g[4] == b); }
        if b == "-q"@ { assert(g[5] == b); }
        if b == "--quiet"@ { assert(g[6] == b); }
        if b == "-d"@ { assert(g[7] == b); }
        if b == "--dry-run"@ { assert(g[8] == b); }
        if b == "-C"@ { assert(g[9] == b); }
        if b == "--directory"@ { assert(g[10] == b); }
        if b == "-e"@ { assert(g[11] == b); }
        if b == "--executor"@ { assert(g[12] == b); }
        if b == "--ansi"@ { assert(g[15] == b); }
        if b == "--no-ansi"@ { assert(g[16] == b); }
    }
    if g.contains(a) {
        let i = choose|i: int| 0 <= i < g.len() && g[i] == a;
        assert(g[i] == a);
        if i == 0 {
            assert(a == "-h"@);
        } else if i == 1 {
            assert(a == "--help"@);
        } else if i == 2 {
            assert(a == "--version"@);
        } else if i == 3 {
            assert(a == "-v"@);
        } else if i == 4 {
            assert(a == "--verbose"@);
        } else if i == 5 {
            assert(a == "-q"@);
        } else if i == 6 {
            assert(a == "--quiet"@);
        } else if i == 7 {
            assert(a == "-d"@);
        } else if i == 8 {
            assert(a == "--dry-run"@);
        } else if i == 9 {
            assert(a == "-C"@);
        } else if i == 10 {
            assert(a == "--directory"@);
        } else if i == 11 {
            assert(a == "-e"@);
        } else if i == 12 {
            assert(a == "--executor"@);
        } else if i == 13 {
            assert(a == "-X"@);
        } else if i == 14 {
            assert(a == "--executor-opt"@);
        } else if i == 15 {
            assert(a == "--ansi"@);
        } else if i == 16 {
            assert(a == "--no-ansi"@);
        }
    }
    if a == "-h"@ { assert(g[0] == a); }
    if a == "--help"@ { assert(g[1] == a); }
    if a == "--version"@ { assert(g[2] == a); }
    if a == "-v"@ { assert(g[3] == a); }
    if a == "--verbose"@ { assert(g[4] == a); }
    if a == "-q"@ { assert(g[5] == a); }
    if a == "--quiet"@ { assert(g[6] == a); }
    if a == "-d"@ { assert(g[7] == a); }
    if a == "--dry-run"@ { assert(g[8] == a); }
    if a == "-C"@ { assert(g[9] == a); }
    if a == "--directory"@ { assert(g[10] == a); }
    if a == "-e"@ { assert(g[11] == a); }
    if a == "--executor"@ { assert(g[12] == a); }
    if a == "-X"@ { assert(g[13] == a); }
    if a == "--executor-opt"@ { assert(g[14] == a); }
    if a == "--ansi"@ { assert(g[15] == a); }
    if a == "--no-ansi"@ { assert(g[16] == a); }
}

/// Which spellings become redundant once `opt` is present. The empty list is the "nothing
/// is excluded" case.
pub fn exclusions(opt: &str) -> (r: Vec<&'static str>)
    ensures
        strs(r@) == spec_exclusions(opt@),
{
    let r: Vec<&'static str> = if str_eq(opt, "-h") || str_eq(opt, "--help") {
        vec!["--help", "-h"]
    } else if str_eq(opt, "--version") {
        vec!["--version"]
    } else if str_eq(opt, "-v") || str_eq(opt, "--verbose") {
        vec!["--quiet", "-q"]
    } else if str_eq(opt, "-q") || str_eq(opt, "--quiet") {
        vec!["--verbose", "-v"]
    } else if str_eq(opt, "-d") || str_eq(opt, "--dry-run") {
        vec!["--dry-run", "-d"]
    } else if str_eq(opt, "-C") || str_eq(opt, "--directory") {
        vec!["--directory", "-C"]
    } else if str_eq(opt, "-e") || str_eq(opt, "--executor") {
        vec!["--executor", "-e"]
    } else if str_eq(opt, "--ansi") || str_eq(opt, "--no-ansi") {
        vec!["--ansi", "--no-ansi"]
    } else {
        Vec::new()
    };
    assert(strs(r@) =~= spec_exclusions(opt@));
    r
}

/// The view of an optional string.
pub open spec fn opt_chars(o: Option<String>) -> Option<Seq<char>> {
    match o {
        Some(s) => Some(s@),
        None => None,
    }
}

/// What a scan of the command line found.
#[derive(Debug, Clone, PartialEq, Eq, Default)]
pub struct Parsed {
    /// Value of `-C` / `--directory` / `--root`, if one was given before the task.
    pub target_dir: Option<String>,
    /// The task name, i.e. the first word that is neither an option nor an option's value.
    pub task: Option<String>,
    /// Index of that task within `words`.
    pub task_position: Option<usize>,
    /// Whether a `--` appears after the task and before the cursor, meaning everything from
    /// here on is passed through to the task rather than interpreted by poe.
    pub after_separator: bool,
}

/// The mathematical content of a [`Parsed`].
pub ghost struct ParsedView {
    pub target_dir: Option<Seq<char>>,
    pub task: Option<Seq<char>>,
    pub task_position: Option<int>,
    pub after_separator: bool,
}

impl View for Parsed {
    type V = ParsedView;

    open spec fn view(&self) -> ParsedView {
        ParsedView {
            target_dir: opt_chars(self.target_dir),
            task: opt_chars(self.task),
            task_position: match self.task_position {
                Some(p) => Some(p as int),
                None => None,
            },
            after_separator: self.after_separator,
        }
    }
}

/// `n` names the project directory.
pub open spec fn is_directory_option(n: Seq<char>) -> bool {
    strs(DIRECTORY_OPTIONS@).contains(n)
}

/// `n` is a global that consumes the following word.
pub open spec fn takes_global_value(n: Seq<char>) -> bool {
    strs(OPTIONS_WITH_VALUES@).contains(n)
}

/// Left-to-right scan of the globals from index `i`, with `dir` the target directory seen so
/// far: the final target directory and the index of the task, if one is reached.
pub open spec fn scan_globals(words: Seq<Seq<char>>, i: int, dir: Option<Seq<char>>) -> (
    Option<Seq<char>>,
    Option<int>,
)
    decreases words.len() - i,
{
    if i < 0 || i >= words.len() {
        (dir, None)
    } else {
        let w = words[i];
        if is_option_word(w) {
            let name = inline_name(w);
            if is_directory_option(name) {
                match inline_value(w) {
                    Some(v) => scan_globals(words, i + 1, Some(v)),
                    None => if i + 1 < words.len() {
                        scan_globals(words, i + 2, Some(words[i + 1]))
                    } else {
                        scan_globals(words, i + 1, dir)
                    },
                }
            } else if inline_value(w) is None && takes_global_value(name) && i + 1 < words.len() {
                scan_globals(words, i + 2, dir)
            } else {
                scan_globals(words, i + 1, dir)
            }
        } else if w == "--"@ {
            scan_globals(words, i + 1, dir)
        } else {
            (dir, Some(i))
        }
    }
}

/// A `--` stands strictly between `pos` and the cursor `cword`.
pub open spec fn separator_between(words: Seq<Seq<char>>, pos: int, cword: int) -> bool {
    exists|j: int| pos < j < cword && j < words.len() && words[j] == "--"@
}

/// What [`parse`] finds in `words` (`words[0]` is the command) with the cursor on `cword`.
pub open spec fn spec_parse(words: Seq<Seq<char>>, cword: int) -> ParsedView {
    let (dir, pos) = scan_globals(words, 1, None);
    ParsedView {
        target_dir: dir,
        task: match pos {
            Some(p) => Some(words[p]),
            None => None,
        },
        task_position: pos,
        after_separator: match pos {
            Some(p) => separator_between(words, p, cword),
            None => false,
        },
    }
}

/// Whether a `--` stands in `words` strictly between `pos` and `cword`.
fn has_separator_between(words: &Vec<String>, pos: usize, cword: usize) -> (r: bool)
    ensures
        r == separator_between(words.deep_view(), pos as int, cword as int),
{
    let ghost ws = words.deep_view();
    if pos >= words.len() {
        return false;
    }
    let mut j = pos;
    while j < words.len()
        invariant
            pos <= j <= words.len(),
            ws == words.deep_view(),
            forall|k: int| pos < k < j && k < cword && k < words.len() ==> ws[k] != "--"@,
        decreases words.len() - j,
    {
        assert(ws[j as int] == words[j as int]@);
        if j > pos && j < cword && str_eq(words[j].as_str(), "--") {
            return true;
        }
        j += 1;
    }
    assert forall|k: int| pos < k < cword && k < ws.len() implies ws[k] != "--"@ by {}
    false
}

/// Scan `words` (argv-style, `words[0]` is the command) with the cursor on index `cword`.
pub fn parse(words: &Vec<String>, cword: usize) -> (r: Parsed)
    ensures
        r@ == spec_parse(words.deep_view(), cword as int),
{
    let ghost ws = words.deep_view();
    let mut target_dir: Option<String> = None;
    // A manual index: an option that takes a value advances the scan by two.
    let mut i: usize = 1;
    while i < words.len()
        invariant
            1 <= i,
            ws == words.deep_view(),
            scan_globals(ws, 1, None) == scan_globals(ws, i as int, opt_chars(target_dir)),
        decreases words.len() - i,
    {
        let word = words[i].as_str();
        assert(ws[i as int] == word@);
        if is_option(word) {
            let (name, inline) = split_inline(word);
            if in_list(DIRECTORY_OPTIONS.as_slice(), name) {
                match inline {
                    // `-C=../x`: the value is right here.
                    Some(value) => {
                        target_dir = Some(value.to_owned());
                    },
                    // `-C ../x`: the value is the next word, if there is one.
                    None => {
                        if i + 1 < words.len() {
                            target_dir = Some(words[i + 1].clone());
                            assert(ws[i + 1] == words[i + 1]@);
                            i += 1;
                        }
                    },
                }
            } else if inline.is_none() && in_list(OPTIONS_WITH_VALUES.as_slice(), name) && i + 1
                < words.len() {
                // Skip the value so it is not mistaken for the task.
                i += 1;
            }
        } else if !str_eq(word, "--") {
            // The first word that is not an option, and not the separator, is the task.
            let task = word.to_owned();
            // The separator only matters if the user's cursor is past it.
            let after_separator = has_separator_between(words, i, cword);
            let r = Parsed {
                target_dir,
                task: Some(task),
                task_position: Some(i),
                after_separator,
            };
            return r;
        }
        i += 1;
    }
    Parsed { target_dir, task: None, task_position: None, after_separator: false }
}

/// The `--` separator takes effect only once the cursor has moved past it: `after_separator`
/// holds exactly when a `--` stands after the task and strictly before the cursor. A `--`
/// under the cursor itself (the user is still typing it) or after it never counts.
pub proof fn lemma_separator_before_cursor(words: Seq<Seq<char>>, cword: int)
    ensures
        spec_parse(words, cword).after_separator ==> exists|j: int|
            #![trigger words[j]]
            0 <= j < cword && j < words.len() && words[j] == "--"@ && spec_parse(
                words,
                cword,
            ).task_position.unwrap() < j,
        spec_parse(words, cword).after_separator ==> spec_parse(words, cword).task_position
            is Some,
        forall|j: int|
            #![trigger words[j]]
            spec_parse(words, cword).task_position is Some && spec_parse(
                words,
                cword,
            ).task_position.unwrap() < j < cword && j < words.len() && words[j] == "--"@
                ==> spec_parse(words, cword).after_separator,
        0 <= cword < words.len() && words[cword] == "--"@ && (forall|k: int|
            #![trigger words[k]]
            0 <= k < cword && words[k] == "--"@ ==> spec_parse(words, cword).task_position
                is None || k <= spec_parse(words, cword).task_position.unwrap())
            ==> !spec_parse(words, cword).after_separator,
{
    lemma_scan_globals_position(words, 1, None);
    if spec_parse(words, cword).after_separator {
        let p = spec_parse(words, cword).task_position.unwrap();
        let j = choose|j: int| p < j < cword && j < words.len() && words[j] == "--"@;
        assert(words[j] == "--"@);
    }
}

/// The task found by a scan from `i` stands at `i` or later, inside `words`.
proof fn lemma_scan_globals_position(words: Seq<Seq<char>>, i: int, dir: Option<Seq<char>>)
    requires
        0 <= i,
    ensures
        scan_globals(words, i, dir).1 matches Some(p) ==> i <= p < words.len(),
    decreases words.len() - i,
{
    if i < words.len() {
        let w = words[i];
        lemma_scan_globals_position(words, i + 1, dir);
        lemma_scan_globals_position(words, i + 1, inline_value(w));
        if i + 1 < words.len() {
            lemma_scan_globals_position(words, i + 2, dir);
            lemma_scan_globals_position(words, i + 2, Some(words[i + 1]));
        }
    }
}

} // verus!
