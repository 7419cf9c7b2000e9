//! The cache of the resolved table, keyed on the sources' modification times and sizes.
//!
//! Resolution costs milliseconds when everything is TOML and far more when an
//! `include_script` has to run Python. Completion fires on every Tab press, so the warm path
//! (a stat of a few files plus one small JSON read) is what the user feels. This module
//! decides whether a stored table may be used; reading, stamping and writing the file is
//! the caller's.
//!
//! Stated limitation: an `include_script` that returns dynamic tasks (reading env vars, a
//! database, the clock) is invisible to a file-based fingerprint; bypassing the cache forces
//! a fresh resolution when it matters.

use vstd::prelude::*;

use crate::resolve::Resolved;
use crate::text::str_eq;

verus! {

/// Where the cache lives, relative to the project root.
pub const CACHE_REL: &'static str = ".cache/devkit-completions.json";

/// One consulted file, as observed when the cache was written. `mtime_ns` is nanoseconds
/// since the Unix epoch; `size` guards against editors that preserve mtime. A file that
/// cannot be stat'ed is stamped zero, which never matches a real stamp.
#[derive(Debug, Clone, PartialEq, Eq, Default)]
pub struct SourceStamp {
    pub path: String,
    pub mtime_ns: u128,
    pub size: u64,
}

/// The mathematical content of a [`SourceStamp`].
pub ghost struct SourceStampView {
    pub path: Seq<char>,
    pub mtime_ns: u128,
    pub size: u64,
}

impl View for SourceStamp {
    type V = SourceStampView;

    open spec fn view(&self) -> SourceStampView {
        SourceStampView { path: self.path@, mtime_ns: self.mtime_ns, size: self.size }
    }
}

/// The views of a list of stamps.
pub open spec fn stamps_view(s: Seq<SourceStamp>) -> Seq<SourceStampView> {
    s.map_values(|x: SourceStamp| x@)
}

/// What a stored table was derived from: the binary's version and every source's stamp.
#[derive(Debug, Clone, PartialEq, Eq, Default)]
pub struct Fingerprint {
    pub devkit_version: String,
    pub sources: Vec<SourceStamp>,
}

/// The cache file's content.
#[derive(Debug, Clone, PartialEq, Eq, Default)]
pub struct Stored {
    pub fingerprint: Fingerprint,
    pub resolved: Resolved,
}

/// A stored table is current when it was written by this version and every source it was
/// derived from still has the stamp it had then.
pub open spec fn is_current(stored: Stored, version: Seq<char>, current: Seq<SourceStamp>) -> bool {
    stored.fingerprint.devkit_version@ == version && stamps_view(stored.fingerprint.sources@)
        == stamps_view(current)
}

/// Two stamps agree.
fn same_stamp(a: &SourceStamp, b: &SourceStamp) -> (r: bool)
    ensures
        r == (a@ == b@),
{
    a.mtime_ns == b.mtime_ns && a.size == b.size && str_eq(a.path.as_str(), b.path.as_str())
}

/// Two stamp lists agree element by element.
fn same_stamps(a: &Vec<SourceStamp>, b: &Vec<SourceStamp>) -> (r: bool)
    ensures
        r == (stamps_view(a@) == stamps_view(b@)),
{
    if a.len() != b.len() {
        assert(stamps_view(a@).len() != stamps_view(b@).len());
        return false;
    }
    let mut i: usize = 0;
    while i < a.len()
        invariant
            i <= a.len(),
            a.len() == b.len(),
            forall|k: int| 0 <= k < i ==> stamps_view(a@)[k] == stamps_view(b@)[k],
        decreases a.len() - i,
    {
        if !same_stamp(&a[i], &b[i]) {
            assert(stamps_view(a@)[i as int] != stamps_view(b@)[i as int]);
            return false;
        }
        i += 1;
    }
    assert(stamps_view(a@) =~= stamps_view(b@));
    true
}

/// The table to answer from without resolving: the stored one, when there is a stored one,
/// it is current against `current` (the sources' stamps now, in the stored order) and the
/// cache is not bypassed. A missing or unreadable cache file is `None`, a miss like any
/// other.
pub fn cached_resolution(
    bypass: bool,
    stored: Option<Stored>,
    version: &str,
    current: &Vec<SourceStamp>,
) -> (r: Option<Resolved>)
    ensures
        r is Some <==> (!bypass && stored is Some && is_current(stored->0, version@, current@)),
        r is Some ==> r->0 == stored->0.resolved,
{
    if bypass {
        return None;
    }
    match stored {
        Some(s) => {
            if str_eq(s.fingerprint.devkit_version.as_str(), version) && same_stamps(
                &s.fingerprint.sources,
                current,
            ) {
                Some(s.resolved)
            } else {
                None
            }
        },
        None => None,
    }
}

/// The record written after a fresh resolution: this version, the sources' stamps, and the
/// table.
pub fn store(version: &str, stamps: Vec<SourceStamp>, resolved: Resolved) -> (r: Stored)
    ensures
        r.fingerprint.devkit_version@ == version@,
        r.fingerprint.sources == stamps,
        r.resolved == resolved,
{
    Stored {
        fingerprint: Fingerprint { devkit_version: String::from_str(version), sources: stamps },
        resolved,
    }
}

/// What a fresh resolution stores is read back while nothing changes: a record made by
/// [`store`] with the stamps taken then is current against those same stamps and version,
/// so the next request answers from it without resolving.
pub proof fn lemma_store_round_trip(version: Seq<char>, stamps: Seq<SourceStamp>, stored: Stored)
    requires
        stored.fingerprint.devkit_version@ == version,
        stored.fingerprint.sources@ == stamps,
    ensures
        is_current(stored, version, stamps),
{
}

/// Any change invalidates: a record from another version, or one whose stamps differ from
/// the sources' stamps now (an edited, resized, deleted or added source), is not current.
pub proof fn lemma_change_invalidates(stored: Stored, version: Seq<char>, current: Seq<SourceStamp>)
    requires
        stored.fingerprint.devkit_version@ != version || stamps_view(stored.fingerprint.sources@)
            != stamps_view(current),
    ensures
        !is_current(stored, version, current),
{
}

} // verus!
