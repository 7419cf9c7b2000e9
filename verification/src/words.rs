//! Turn bash's `COMP_LINE` / `COMP_POINT` pair into words plus a cursor index.
//!
//! Only bash needs this. PowerShell hands the completer `$commandAst`, which its own parser
//! already produced, so re-parsing raw text there would mean discarding an authoritative
//! answer and deriving a worse one.

use vstd::prelude::*;
use vstd::string::StringSliceAdditionalSpecFns;
use vstd::utf8::*;

use crate::text::{chars_of, concat, string_of_range};

verus! {

broadcast use vstd::utf8::group_utf8_lib;

/// The error `shell_words::split` reports for an unterminated quote.
#[verifier::external_type_specification]
#[verifier::external_body]
pub struct ExShellParseError(shell_words::ParseError);

/// What POSIX word splitting (quotes, backslashes, comments) makes of `line`: `None` when a
/// quote is left open.
pub uninterp spec fn posix_words(line: Seq<char>) -> Option<Seq<Seq<char>>>;

/// Trusted: `shell_words::split`. Its result is named by [`posix_words`]: `Ok` with the
/// words exactly when `posix_words` has them, `Err` when it has none.
#[verifier::external_body]
fn shell_split(line: &str) -> (r: Result<Vec<String>, shell_words::ParseError>)
    ensures
        match r {
            Ok(words) => posix_words(line@) == Some(words.deep_view()),
            Err(_) => posix_words(line@) is None,
        },
{
    shell_words::split(line)
}

/// Whether `c` has Unicode's `White_Space` property.
pub uninterp spec fn is_white_space(c: char) -> bool;

/// Trusted: `char::is_whitespace`, named by [`is_white_space`].
#[verifier::external_body]
pub(crate) fn char_is_whitespace(c: char) -> (r: bool)
    ensures
        r == is_white_space(c),
{
    c.is_whitespace()
}

/// A command line split around the cursor.
#[derive(Debug, Clone)]
pub struct Split {
    /// argv-style words parsed from the text left of the cursor.
    pub words: Vec<String>,
    /// Index of the word being completed. Equals `words.len()` when a fresh word is starting.
    pub cword: usize,
    /// The partially typed word: what candidates must start with.
    pub prefix: String,
}

/// The mathematical content of a [`Split`].
pub ghost struct SplitView {
    pub words: Seq<Seq<char>>,
    pub cword: int,
    pub prefix: Seq<char>,
}

impl View for Split {
    type V = SplitView;

    open spec fn view(&self) -> SplitView {
        SplitView { words: self.words.deep_view(), cword: self.cword as int, prefix: self.prefix@ }
    }
}

/// The largest character boundary of `bytes` at or before `p` (0 at the latest).
pub open spec fn boundary_at_or_before(bytes: Seq<u8>, p: int) -> int
    decreases p,
{
    if p <= 0 {
        0
    } else if is_char_boundary(bytes, p) {
        p
    } else {
        boundary_at_or_before(bytes, p - 1)
    }
}

/// The byte offset `point` moved back to a character boundary, never past the end of `line`.
pub open spec fn clamped_point(line: Seq<char>, point: int) -> int {
    let bytes = encode_utf8(line);
    boundary_at_or_before(bytes, if point < bytes.len() { point } else { bytes.len() as int })
}

/// The text left of the cursor.
pub open spec fn left_of_cursor(line: Seq<char>, point: int) -> Seq<char> {
    decode_utf8(encode_utf8(line).subrange(0, clamped_point(line, point)))
}

/// `s` split on runs of whitespace, empty pieces dropped: what `str::split_whitespace`
/// yields.
pub open spec fn whitespace_fields(s: Seq<char>) -> Seq<Seq<char>>
    decreases s.len(),
{
    if s.len() == 0 {
        seq![]
    } else {
        let before = whitespace_fields(s.drop_last());
        let c = s.last();
        if is_white_space(c) {
            before
        } else if s.len() >= 2 && !is_white_space(s[s.len() - 2]) {
            before.update(before.len() - 1, before.last().push(c))
        } else {
            before.push(seq![c])
        }
    }
}

/// The words the splitter's answers give for `left`: its POSIX split (`plain`), else the
/// split with a closing `"` (`double`), else with a closing `'` (`single`), else plain
/// whitespace splitting when none of those parsed.
pub open spec fn chosen_words(
    left: Seq<char>,
    plain: Option<Seq<Seq<char>>>,
    double: Option<Seq<Seq<char>>>,
    single: Option<Seq<Seq<char>>>,
) -> Seq<Seq<char>> {
    match plain {
        Some(w) => w,
        None => match double {
            Some(w) => w,
            None => match single {
                Some(w) => w,
                None => whitespace_fields(left),
            },
        },
    }
}

/// Words of the text left of the cursor: POSIX splitting, retried with a closing `"` and
/// then a closing `'` for a quote still being typed, and plain whitespace splitting when
/// none of those parse.
pub open spec fn cursor_words(left: Seq<char>) -> Seq<Seq<char>> {
    chosen_words(left, posix_words(left), posix_words(left.push('"')), posix_words(left.push('\'')))
}

/// A cursor directly after whitespace, or on an empty line, starts a fresh word.
pub open spec fn starts_fresh_word(left: Seq<char>) -> bool {
    left.len() == 0 || is_white_space(left.last())
}

/// The split for the text `left` of the cursor whose words are `parsed`: a fresh word after
/// whitespace or on an empty line, else the last word is the one being completed (an empty
/// one when nothing parsed).
pub open spec fn split_of(left: Seq<char>, parsed: Seq<Seq<char>>) -> SplitView {
    if starts_fresh_word(left) {
        SplitView { words: parsed, cword: parsed.len() as int, prefix: seq![] }
    } else if parsed.len() == 0 {
        SplitView { words: seq![seq![]], cword: 0, prefix: seq![] }
    } else {
        SplitView { words: parsed, cword: parsed.len() - 1, prefix: parsed.last() }
    }
}

/// What [`split_line`] returns for `line` with the cursor at byte offset `point`.
pub open spec fn spec_split_line(line: Seq<char>, point: int) -> SplitView {
    let left = left_of_cursor(line, point);
    split_of(left, cursor_words(left))
}

/// Only the text left of the cursor counts: splitting a line at a cursor is splitting the
/// text left of it with the cursor at its end.
pub proof fn lemma_right_of_cursor_ignored(line: Seq<char>, point: int)
    ensures
        spec_split_line(line, point) == spec_split_line(
            left_of_cursor(line, point),
            encode_utf8(left_of_cursor(line, point)).len() as int,
        ),
{
    let left = left_of_cursor(line, point);
    let bytes = encode_utf8(left);
    is_char_boundary_start_end_of_seq(bytes);
    encode_utf8_decode_utf8(left);
    assert(bytes.subrange(0, bytes.len() as int) =~= bytes);
    assert(clamped_point(left, bytes.len() as int) == bytes.len());
    assert(left_of_cursor(left, bytes.len() as int) == left);
}

/// Round `point` down to the nearest character boundary at or before it, and never past the
/// end of `line`.
///
/// `COMP_POINT` comes from the shell and is a byte count, so on a line containing any
/// multi-byte character it can land mid-character.
fn clamp_to_boundary(line: &str, point: usize) -> (r: usize)
    ensures
        r as int == clamped_point(line@, point as int),
        is_char_boundary(line.spec_bytes(), r as int),
        r <= line.spec_bytes().len(),
{
    let ghost bytes = line.spec_bytes();
    let len = line.as_bytes().len();
    let ghost start: int = if point < len { point as int } else { len as int };
    let mut p = if point < len { point } else { len };
    while p > 0 && !line.is_char_boundary(p)
        invariant
            p <= start <= bytes.len(),
            bytes == line.spec_bytes(),
            boundary_at_or_before(bytes, p as int) == boundary_at_or_before(bytes, start),
        decreases p,
    {
        p -= 1;
    }
    proof {
        if p == 0 {
            is_char_boundary_start_end_of_seq(bytes);
        }
        assert(boundary_at_or_before(bytes, p as int) == p);
        assert(bytes == encode_utf8(line@));
        assert(len == bytes.len());
    }
    p
}

/// Naive whitespace splitting, the last resort when no quote repair makes the text parse.
fn split_whitespace_words(s: &str) -> (r: Vec<String>)
    ensures
        r.deep_view() == whitespace_fields(s@),
{
    let cs = chars_of(s);
    let mut out: Vec<String> = Vec::new();
    let mut i: usize = 0;
    // Start of the field being read, when inside one.
    let mut start: Option<usize> = None;
    while i < cs.len()
        invariant
            i <= cs.len(),
            cs@ == s@,
            match start {
                None => out.deep_view() == whitespace_fields(cs@.take(i as int)) && (i > 0
                    ==> is_white_space(cs@[i - 1])),
                Some(b) => b < i && whitespace_fields(cs@.take(i as int)) == out.deep_view().push(
                    cs@.subrange(b as int, i as int),
                ) && (b > 0 ==> is_white_space(cs@[b - 1])) && !is_white_space(cs@[i - 1]),
            },
        decreases cs.len() - i,
    {
        let c = cs[i];
        let ws = char_is_whitespace(c);
        let ghost t = cs@.take(i + 1);
        assert(t.drop_last() =~= cs@.take(i as int));
        assert(t.last() == c);
        match start {
            None => {
                if !ws {
                    start = Some(i);
                    assert(seq![c] =~= cs@.subrange(i as int, i + 1));
                }
            },
            Some(b) => {
                if ws {
                    let w = string_of_range(&cs, b, i);
                    let ghost before = out.deep_view();
                    out.push(w);
                    assert(out.deep_view() =~= before.push(cs@.subrange(b as int, i as int)));
                    start = None;
                } else {
                    assert(cs@.subrange(b as int, i as int).push(c) =~= cs@.subrange(
                        b as int,
                        i + 1,
                    ));
                }
            },
        }
        i += 1;
    }
    match start {
        Some(b) => {
            let w = string_of_range(&cs, b, cs.len());
            let ghost before = out.deep_view();
            out.push(w);
            assert(out.deep_view() =~= before.push(cs@.subrange(b as int, cs@.len() as int)));
        },
        None => {},
    }
    assert(cs@.take(cs@.len() as int) =~= cs@);
    out
}

/// The view of an optional word list.
pub open spec fn opt_words(o: Option<Vec<String>>) -> Option<Seq<Seq<char>>> {
    match o {
        Some(w) => Some(w.deep_view()),
        None => None,
    }
}

/// The split for the text `left` of the cursor, given what the splitter made of it
/// (`plain`), of it with a closing `"` (`double`) and with a closing `'` (`single`), each
/// `None` where it did not parse. The first that parsed gives the words; whitespace
/// splitting when none did.
pub fn split_words(
    left: &str,
    plain: Option<Vec<String>>,
    double: Option<Vec<String>>,
    single: Option<Vec<String>>,
) -> (r: Split)
    ensures
        r@ == split_of(left@, chosen_words(left@, opt_words(plain), opt_words(double), opt_words(single))),
        r.cword <= r.words.len(),
        r.cword < r.words.len() ==> r.words[r.cword as int]@ == r.prefix@,
        r.cword == r.words.len() ==> r.prefix@.len() == 0,
{
    let parsed = match plain {
        Some(w) => w,
        None => match double {
            Some(w) => w,
            None => match single {
                Some(w) => w,
                None => split_whitespace_words(left),
            },
        },
    };
    let lc = chars_of(left);
    let starting_new_word = lc.len() == 0 || char_is_whitespace(lc[lc.len() - 1]);
    if starting_new_word {
        let cword = parsed.len();
        Split { words: parsed, cword, prefix: String::new() }
    } else if parsed.len() == 0 {
        let words = vec![String::new()];
        assert(words.deep_view() =~= seq![Seq::<char>::empty()]);
        Split { words, cword: 0, prefix: String::new() }
    } else {
        let cword = parsed.len() - 1;
        let prefix = parsed[cword].clone();
        Split { words: parsed, cword, prefix }
    }
}

/// What the splitter makes of `text`: its words, `None` when a quote is left open.
fn posix_split(text: &str) -> (r: Option<Vec<String>>)
    ensures
        opt_words(r) == posix_words(text@),
{
    match shell_split(text) {
        Ok(words) => Some(words),
        Err(_) => None,
    }
}

/// Split the text left of the cursor into words and say which one is being completed.
///
/// Everything to the right of the cursor is discarded deliberately: it is not part of what
/// the user is completing, and ignoring it also sidesteps a half-typed quote further along
/// the line. The last parsed word, when the cursor sits on it, stays in `words` and is also
/// the `prefix`.
pub fn split_line(line: &str, point: usize) -> (r: Split)
    ensures
        r@ == spec_split_line(line@, point as int),
        r.cword <= r.words.len(),
        r.cword < r.words.len() ==> r.words[r.cword as int]@ == r.prefix@,
        r.cword == r.words.len() ==> r.prefix@.len() == 0,
{
    let point = clamp_to_boundary(line, point);
    let (left, _) = line.split_at(point);
    proof {
        encode_utf8_decode_utf8(left@);
        assert(left@ == left_of_cursor(line@, point as int));
        reveal_strlit("\"");
        reveal_strlit("'");
    }
    // The repairs are tried only while nothing has parsed yet; one that is not tried does
    // not count, as the first that parsed decides.
    let plain = posix_split(left);
    let double = if plain.is_none() {
        let closed = concat(left, "\"");
        assert(closed@ =~= left@.push('"'));
        posix_split(closed.as_str())
    } else {
        None
    };
    let single = if plain.is_none() && double.is_none() {
        let closed = concat(left, "'");
        assert(closed@ =~= left@.push('\''));
        posix_split(closed.as_str())
    } else {
        None
    };
    split_words(left, plain, double, single)
}

} // verus!
