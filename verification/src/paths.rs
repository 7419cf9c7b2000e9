//! Paths as text. How a path joins and where its parent ends depend on the platform (the
//! separator, which paths count as absolute, drive and verbatim prefixes), so what is stated
//! of these results is what holds everywhere: a relative path joined onto a path extends it
//! by at most one separator, and the parent of a path so extended is the path it extended.

use vstd::prelude::*;

use crate::text::is_prefix_of;

verus! {

/// One plain path component: not empty, not `.` or `..`, and free of `/`, `\`, `:` and `?`,
/// so it is a relative path with neither root nor prefix on every platform.
pub open spec fn plain_component(c: Seq<char>) -> bool {
    &&& c.len() > 0
    &&& c != seq!['.']
    &&& c != seq!['.', '.']
    &&& forall|i: int|
        0 <= i < c.len() ==> c[i] != '/' && c[i] != '\\' && c[i] != ':' && c[i] != '?'
}

/// A relative path with neither root nor prefix on every platform: not empty, not starting
/// with a separator, and free of `:`.
pub open spec fn simple_relative(p: Seq<char>) -> bool {
    &&& p.len() > 0
    &&& p[0] != '/'
    &&& p[0] != '\\'
    &&& !p.contains(':')
}

/// `s` ends with `t`.
pub open spec fn ends_with(s: Seq<char>, t: Seq<char>) -> bool {
    t.len() <= s.len() && s.subrange(s.len() - t.len(), s.len() as int) == t
}

/// The separator a join writes between `base` and the next part: none after an empty base or
/// one ending in `/` (a separator everywhere); `/` or `\` (the platform's) after a base ending
/// in anything but `/`, `\` or `:`; any of the three after `\` or `:`, which are a separator
/// and a drive on one platform and plain characters on the other.
pub open spec fn join_sep_ok(base: Seq<char>, s: Seq<char>) -> bool {
    if base.len() == 0 || base.last() == '/' {
        s == Seq::<char>::empty()
    } else if base.last() == '\\' || base.last() == ':' {
        s == Seq::<char>::empty() || s == seq!['/'] || s == seq!['\\']
    } else {
        s == seq!['/'] || s == seq!['\\']
    }
}

/// `r` is `base` extended by `rel`, after the separator [`join_sep_ok`] allows.
pub open spec fn is_join(r: Seq<char>, base: Seq<char>, rel: Seq<char>) -> bool {
    ||| join_sep_ok(base, Seq::<char>::empty()) && r == base + rel
    ||| join_sep_ok(base, seq!['/']) && r == base + seq!['/'] + rel
    ||| join_sep_ok(base, seq!['\\']) && r == base + seq!['\\'] + rel
}

/// `base` followed, for each part in turn, by its separator and the part.
pub open spec fn joined_with(base: Seq<char>, parts: Seq<Seq<char>>, seps: Seq<Seq<char>>) -> Seq<
    char,
>
    decreases parts.len(),
{
    if parts.len() == 0 {
        base
    } else {
        joined_with(base, parts.drop_last(), seps.drop_last()) + seps.last() + parts.last()
    }
}

/// Each separator is one a join writes after the path built so far.
pub open spec fn seps_ok(base: Seq<char>, parts: Seq<Seq<char>>, seps: Seq<Seq<char>>) -> bool
    decreases parts.len(),
{
    if parts.len() == 0 {
        true
    } else {
        seps_ok(base, parts.drop_last(), seps.drop_last()) && join_sep_ok(
            joined_with(base, parts.drop_last(), seps.drop_last()),
            seps.last(),
        )
    }
}

/// `r` is `base` extended by each of `parts` in turn, as [`is_join`] extends a path.
pub open spec fn joined_all(r: Seq<char>, base: Seq<char>, parts: Seq<Seq<char>>) -> bool {
    exists|seps: Seq<Seq<char>>|
        seps.len() == parts.len() && seps_ok(base, parts, seps) && r == #[trigger] joined_with(
            base,
            parts,
            seps,
        )
}

/// A directory path whose parent is plain to read off: not empty, free of `:` and `?`
/// (no drive, UNC or verbatim prefix), not starting with two separators, and not ending in a
/// separator or a `.` component.
pub open spec fn tidy_dir(d: Seq<char>) -> bool {
    &&& d.len() > 0
    &&& !d.contains(':')
    &&& !d.contains('?')
    &&& d.last() != '/'
    &&& d.last() != '\\'
    &&& !(d.len() >= 2 && (d[0] == '/' || d[0] == '\\') && (d[1] == '/' || d[1] == '\\'))
    &&& !(d.len() >= 2 && d.last() == '.' && (d[d.len() - 2] == '/' || d[d.len() - 2] == '\\'))
}

/// Nothing joined onto `base` is `base` itself.
pub proof fn lemma_joined_none(base: Seq<char>)
    ensures
        joined_all(base, base, seq![]),
{
    let seps: Seq<Seq<char>> = seq![];
    assert(joined_with(base, seq![], seps) == base);
    assert(seps_ok(base, seq![], seps));
}

/// Extending a path by one more part keeps it extended by all of them.
pub proof fn lemma_joined_all_push(r: Seq<char>, b: Seq<char>, base: Seq<char>, parts: Seq<Seq<char>>, c: Seq<char>)
    requires
        joined_all(b, base, parts),
        is_join(r, b, c),
    ensures
        joined_all(r, base, parts.push(c)),
{
    let seps = choose|seps: Seq<Seq<char>>|
        seps.len() == parts.len() && seps_ok(base, parts, seps) && b == #[trigger] joined_with(
            base,
            parts,
            seps,
        );
    let s: Seq<char> = if join_sep_ok(b, Seq::<char>::empty()) && r == b + c {
        Seq::<char>::empty()
    } else if join_sep_ok(b, seq!['/']) && r == b + seq!['/'] + c {
        seq!['/']
    } else {
        seq!['\\']
    };
    let ps = parts.push(c);
    let ss = seps.push(s);
    assert(ps.drop_last() =~= parts);
    assert(ss.drop_last() =~= seps);
    assert(r == b + s + c);
    assert(joined_with(base, ps, ss) == r);
    assert(seps_ok(base, ps, ss));
}

proof fn lemma_joined_with_shape(base: Seq<char>, parts: Seq<Seq<char>>, seps: Seq<Seq<char>>)
    requires
        seps.len() == parts.len(),
    ensures
        is_prefix_of(base, joined_with(base, parts, seps)),
        parts.len() > 0 ==> ends_with(joined_with(base, parts, seps), parts.last()),
    decreases parts.len(),
{
    if parts.len() > 0 {
        let b = joined_with(base, parts.drop_last(), seps.drop_last());
        lemma_joined_with_shape(base, parts.drop_last(), seps.drop_last());
        let r = joined_with(base, parts, seps);
        let c = parts.last();
        assert(r == b + seps.last() + c);
        assert(r.subrange(0, base.len() as int) =~= b.subrange(0, base.len() as int));
        assert(r.subrange(r.len() - c.len(), r.len() as int) =~= c);
    } else {
        assert(base.subrange(0, base.len() as int) =~= base);
    }
}

/// A path extended by parts starts with the base and ends with the last part.
pub proof fn lemma_joined_all_shape(r: Seq<char>, base: Seq<char>, parts: Seq<Seq<char>>)
    requires
        joined_all(r, base, parts),
    ensures
        is_prefix_of(base, r),
        parts.len() > 0 ==> ends_with(r, parts.last()),
{
    let seps = choose|seps: Seq<Seq<char>>|
        seps.len() == parts.len() && seps_ok(base, parts, seps) && r == #[trigger] joined_with(
            base,
            parts,
            seps,
        );
    lemma_joined_with_shape(base, parts, seps);
}

/// Every part is a plain component.
pub open spec fn all_plain(parts: Seq<Seq<char>>) -> bool {
    forall|i: int| 0 <= i < parts.len() ==> plain_component(#[trigger] parts[i])
}

/// A plain component is a relative path with neither root nor prefix.
pub proof fn lemma_plain_is_simple(c: Seq<char>)
    requires
        plain_component(c),
    ensures
        simple_relative(c),
        !c.contains('?'),
{
}

/// Joining text free of a character other than a separator onto a path free of it keeps
/// the path free of it.
pub proof fn lemma_join_keeps_free(r: Seq<char>, base: Seq<char>, rel: Seq<char>, x: char)
    requires
        is_join(r, base, rel),
        !base.contains(x),
        !rel.contains(x),
        x != '/',
        x != '\\',
    ensures
        !r.contains(x),
{
    if r.contains(x) {
        let i = choose|i: int| 0 <= i < r.len() && r[i] == x;
        if i < base.len() {
            assert(r[i] == base[i]);
        } else if r == base + rel {
            assert(r[i] == rel[i - base.len()]);
        } else if i > base.len() {
            assert(r[i] == rel[i - base.len() - 1]);
        }
    }
}

/// `base` joined with `rel`, as a path.
///
/// Trusted: `std::path::Path::join`, converted back to text with `to_string_lossy` (text from
/// a `str` converts back without loss). `PathBuf::push` documents that pushing a relative
/// path extends the existing one: the platform's separator is added unless the base is
/// empty or already ends in a separator, then `rel` as written. Stated: that extension
/// ([`is_join`]), for a `rel` with neither root nor prefix on a base without a verbatim
/// prefix (one free of `?`: only a verbatim base is normalized), and that a plain component
/// ends the result on any base. Not stated: which of `/` and `\` is the separator (it is
/// the platform's), and what a rooted or prefixed `rel` does.
#[verifier::external_body]
pub(crate) fn join_path(base: &str, rel: &str) -> (r: String)
    ensures
        plain_component(rel@) ==> ends_with(r@, rel@),
        simple_relative(rel@) && !base@.contains('?') ==> is_join(r@, base@, rel@),
{
    std::path::Path::new(base).join(rel).to_string_lossy().into_owned()
}

/// The directory `path` lies in, `None` for a root or an empty path.
///
/// Trusted: `std::path::Path::parent`, converted back to text with `to_string_lossy`.
/// `Path::parent` documents the result as the path without its final component; trailing
/// separators and `.` components of what is left are not part of it. Stated: for a path
/// that is a tidy directory, `/` (a separator on every platform) and a plain component,
/// the parent is that directory. Not stated: any other path, whose reading depends on the
/// platform.
#[verifier::external_body]
pub(crate) fn parent_dir(path: &str) -> (r: Option<String>)
    ensures
        forall|d: Seq<char>, c: Seq<char>|
            #![trigger d + seq!['/'] + c]
            tidy_dir(d) && plain_component(c) && path@ == d + seq!['/'] + c ==> r is Some
                && r->0@ == d,
{
    std::path::Path::new(path).parent().map(|p| p.to_string_lossy().into_owned())
}

} // verus!
