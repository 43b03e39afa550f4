//! What is remembered of a pair.

use crossbag::clock::Timestamp;
use crossbag::config::{Platform, Surroundings};
use crossbag::digest::Digest;
use crossbag::scan::Listed;
use crossbag::state::{FileStateEntry, SyncState};
use crossbag::sync::SyncEngine;

fn at(secs: i64) -> Timestamp {
    Timestamp::new(secs, 0).unwrap()
}

fn file(path: &str, content: &[u8], secs: i64) -> Listed {
    Listed {
        path: format!("/root/{}", path),
        relative_path: path.to_string(),
        is_root: false,
        is_dir: false,
        size: content.len() as u64,
        modified_secs: Some(secs),
    }
}

fn hash(content: &[u8]) -> Option<Digest> {
    Some(SyncEngine::compute_file_hash(content))
}

#[test]
fn test_incremental_update_new_files() {
    let listing = vec![file("a.txt", b"hello", 1), file("b.txt", b"world", 1)];
    let mut state = SyncState::new("incr-test");
    let stale = state.stale_files(&listing, &at(9));
    assert_eq!(stale, vec![true, true]);
    let entries =
        state.incremental_update(&listing, &vec![hash(b"hello"), hash(b"world")], &at(9));

    assert_eq!(entries.len(), 2);
    assert_eq!(state.files.len(), 2);
    assert_ne!(state.files.get("a.txt").unwrap().hash.bytes, [0; 32]);
}

#[test]
fn test_incremental_reuse_hash() {
    let listing = vec![file("unchanged.txt", b"static content", 1)];
    let mut state = SyncState::new("reuse-test");
    state.incremental_update(&listing, &vec![hash(b"static content")], &at(9));
    let first_hash = state.files.get("unchanged.txt").unwrap().hash;

    assert_eq!(state.stale_files(&listing, &at(20)), vec![false]);
    state.incremental_update(&listing, &vec![None], &at(20));
    let second_hash = state.files.get("unchanged.txt").unwrap().hash;

    assert_eq!(
        first_hash.bytes, second_hash.bytes,
        "Hash should be reused when file unchanged"
    );
}

#[test]
fn test_cleanup_deleted_files() {
    let mut state = SyncState::new("cleanup-test");
    state.incremental_update(
        &vec![file("keep.txt", b"keep", 1), file("remove.txt", b"remove", 1)],
        &vec![hash(b"keep"), hash(b"remove")],
        &at(2),
    );
    assert_eq!(state.files.len(), 2);

    state.incremental_update(&vec![file("keep.txt", b"keep", 1)], &vec![None], &at(3));
    assert_eq!(state.files.len(), 1);
    assert!(state.files.contains_key("keep.txt"));
    assert!(!state.files.contains_key("remove.txt"));
}

#[test]
fn changed_files_are_hashed_again() {
    let mut state = SyncState::starting_at("p", at(1));
    assert_eq!(state.pair_id, "p");
    assert_eq!(state.last_sync, at(1));
    let before = vec![file("a", b"one", 1), file("b", b"two", 1)];
    state.incremental_update(&before, &vec![hash(b"one"), hash(b"two")], &at(5));
    assert_eq!(state.last_sync, at(5));

    // The size of one has changed, the time of the other.
    let after = vec![file("a", b"three", 1), file("b", b"TWO", 2)];
    assert_eq!(state.stale_files(&after, &at(6)), vec![true, true]);
    let entries = state.incremental_update(&after, &vec![hash(b"three"), None], &at(6));
    assert!(entries[0].hash.same(&Digest::of(b"three")));
    // One that could not be read has no digest.
    assert_eq!(entries[1].hash.bytes, [0; 32]);
    assert_eq!(entries[1].modified, at(2));
    assert_eq!(state.files.get("b").unwrap().size, 3);
}

#[test]
fn directories_are_not_remembered() {
    let mut dir = file("d", b"", 1);
    dir.is_dir = true;
    dir.size = 4096;
    let mut root = file("", b"", 1);
    root.is_root = true;
    root.is_dir = true;
    let listing = vec![root, dir, file("d/x", b"x", 1)];
    let mut state = SyncState::new("p");
    assert_eq!(state.stale_files(&listing, &at(4)), vec![false, false, true]);
    let entries = state.incremental_update(&listing, &vec![None, None, hash(b"x")], &at(4));
    assert_eq!(entries.len(), 2);
    assert!(entries[0].is_dir);
    assert_eq!(entries[0].size, 0);
    assert_eq!(entries[0].modified, at(4));
    assert_eq!(entries[0].hash.bytes, [0; 32]);
    assert_eq!(entries[1].relative_path, "d/x");
    assert_eq!(state.files.len(), 1);
}

#[test]
fn a_file_without_a_time_is_hashed_each_time() {
    let mut listing = vec![file("a", b"x", 0)];
    listing[0].modified_secs = None;
    let mut state = SyncState::new("p");
    state.incremental_update(&listing, &vec![hash(b"x")], &at(4));
    assert_eq!(state.files.get("a").unwrap().modified, at(4));
    assert_eq!(state.stale_files(&listing, &at(5)), vec![true]);
    assert_eq!(state.stale_files(&listing, &at(4)), vec![false]);
}

#[test]
fn what_is_handed_over_for_unchanged_files_does_not_matter() {
    let listing = vec![file("a", b"x", 1)];
    let mut state = SyncState::new("p");
    state.incremental_update(&listing, &vec![hash(b"x")], &at(4));
    let entries = state.incremental_update(&listing, &vec![hash(b"other")], &at(5));
    assert!(entries[0].hash.same(&Digest::of(b"x")));
}

#[test]
fn remembering_changes_no_entries() {
    let listing = vec![file("a", b"one", 1), file("b", b"two", 2), file("c", b"x", 3)];
    let contents = vec![hash(b"one"), hash(b"two"), hash(b"x")];
    let mut state = SyncState::new("p");
    state.incremental_update(
        &vec![file("a", b"one", 1), file("b", b"old", 1)],
        &vec![hash(b"one"), hash(b"old")],
        &at(4),
    );
    let some = state.incremental_update(&listing, &vec![None, hash(b"two"), hash(b"x")], &at(9));
    let all = SyncState::new("p").incremental_update(&listing, &contents, &at(9));
    assert_eq!(some.len(), all.len());
    for (x, y) in some.iter().zip(&all) {
        assert_eq!(x.relative_path, y.relative_path);
        assert_eq!(x.hash.bytes, y.hash.bytes);
        assert_eq!(x.modified, y.modified);
    }
}

#[test]
fn copies_of_a_state() {
    let mut state = SyncState::new("p");
    state.files.insert(
        "test.txt".into(),
        FileStateEntry {
            size: 100,
            modified: at(3),
            hash: Digest::of(b"hello"),
        },
    );
    let copy = state.copy();
    assert_eq!(copy.pair_id, "p");
    assert_eq!(copy.last_sync, state.last_sync);
    assert_eq!(copy.files.len(), 1);
    assert_eq!(copy.files.get("test.txt").unwrap().size, 100);
}

#[test]
fn where_a_state_is_kept() {
    let place = SyncState::default_path(
        "docs",
        &Surroundings {
            platform: Platform::Linux,
            xdg_config_home: None,
            home: Some("/home/u".into()),
            app_data: None,
        },
    );
    assert_eq!(place.base, "/home/u");
    assert_eq!(
        place.steps,
        vec![".config", "crossbag", ".crossbag", "state_docs.json"]
    );
    let place = SyncState::default_path(
        "docs",
        &Surroundings {
            platform: Platform::Linux,
            xdg_config_home: Some("/xdg".into()),
            home: Some("/home/u".into()),
            app_data: None,
        },
    );
    assert_eq!(place.base, "/xdg");
    assert_eq!(place.steps, vec!["crossbag", ".crossbag", "state_docs.json"]);
}

#[test]
fn what_is_no_file_any_more_is_forgotten() {
    let mut state = SyncState::new("p");
    state.incremental_update(
        &vec![file("gone.txt", b"1", 1), file("x", b"2", 1), file("kept", b"3", 1)],
        &vec![hash(b"1"), hash(b"2"), hash(b"3")],
        &at(4),
    );
    assert_eq!(state.files.len(), 3);
    let mut dir = file("x", b"", 1);
    dir.is_dir = true;
    let entries = state.incremental_update(
        &vec![dir, file("kept", b"3", 1)],
        &vec![None, None],
        &at(9),
    );
    let files: Vec<&str> = entries
        .iter()
        .filter(|e| !e.is_dir)
        .map(|e| e.relative_path.as_str())
        .collect();
    assert_eq!(files, vec!["kept"]);
    assert_eq!(state.files.len(), 1);
    assert!(state.files.contains_key("kept"));
    assert!(!state.files.contains_key("gone.txt"));
    assert!(!state.files.contains_key("x"));
}
