//! Whether a stored table may answer without resolving.

use devkit_poe_complete::cache::{CACHE_REL, SourceStamp, cached_resolution, store};
use devkit_poe_complete::resolve::{Resolved, Task};

fn stamp(path: &str, mtime_ns: u128, size: u64) -> SourceStamp {
    SourceStamp { path: path.to_string(), mtime_ns, size }
}

fn table(names: &[&str]) -> Resolved {
    Resolved {
        tasks: names.iter().map(|n| Task { name: n.to_string(), args: vec![] }).collect(),
        sources: vec!["/p/pyproject.toml".to_string()],
    }
}

#[test]
fn the_cache_lives_under_dot_cache() {
    assert_eq!(CACHE_REL, ".cache/devkit-completions.json");
}

#[test]
fn a_stored_table_is_read_back_while_nothing_changed() {
    let stamps = vec![stamp("/p/pyproject.toml", 7, 40)];
    let stored = store("1.2.3", stamps.clone(), table(&["a", "b"]));
    assert_eq!(stored.fingerprint.devkit_version, "1.2.3");
    let hit = cached_resolution(false, Some(stored), "1.2.3", &stamps);
    assert_eq!(hit, Some(table(&["a", "b"])));
}

#[test]
fn an_edited_source_invalidates() {
    let stored = store("1.2.3", vec![stamp("/p/pyproject.toml", 7, 40)], table(&["a"]));
    assert_eq!(cached_resolution(false, Some(stored.clone()), "1.2.3", &vec![stamp("/p/pyproject.toml", 8, 40)]), None);
    assert_eq!(cached_resolution(false, Some(stored.clone()), "1.2.3", &vec![stamp("/p/pyproject.toml", 7, 41)]), None);
    // A deleted source is stamped zero, which never matches.
    assert_eq!(cached_resolution(false, Some(stored), "1.2.3", &vec![stamp("/p/pyproject.toml", 0, 0)]), None);
}

#[test]
fn a_different_devkit_version_invalidates() {
    let stamps = vec![stamp("/p/pyproject.toml", 7, 40)];
    let stored = store("0.0.0", stamps.clone(), table(&["stale"]));
    assert_eq!(cached_resolution(false, Some(stored), "1.2.3", &stamps), None);
}

#[test]
fn bypass_ignores_a_current_table() {
    let stamps = vec![stamp("/p/pyproject.toml", 7, 40)];
    let stored = store("1.2.3", stamps.clone(), table(&["a"]));
    assert_eq!(cached_resolution(true, Some(stored), "1.2.3", &stamps), None);
}

#[test]
fn a_missing_or_unreadable_cache_is_a_miss() {
    assert_eq!(cached_resolution(false, None, "1.2.3", &vec![]), None);
}

#[test]
fn an_added_or_dropped_source_invalidates() {
    let stamps = vec![stamp("/p/pyproject.toml", 7, 40)];
    let stored = store("1.2.3", stamps.clone(), table(&["a"]));
    let more = vec![stamp("/p/pyproject.toml", 7, 40), stamp("/p/x.toml", 1, 1)];
    assert_eq!(cached_resolution(false, Some(stored.clone()), "1.2.3", &more), None);
    assert_eq!(cached_resolution(false, Some(stored), "1.2.3", &vec![]), None);
}
