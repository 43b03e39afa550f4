//! Indexes, differences and chunks.

use crossbag::clock::Timestamp;
use crossbag::config::CrossBagConfig;
use crossbag::digest::{ContentHasher, Digest};
use crossbag::identity::NodeId;
use crossbag::protocol::FileEntry;
use crossbag::scan::{keeps_entry, unhidden, Listed};
use crossbag::sync::{ConflictStrategy, SyncEngine};
use crossbag::table::Table;
use std::sync::Arc;

fn at(secs: i64) -> Timestamp {
    Timestamp::new(secs, 0).unwrap()
}

fn entry(path: &str, size: u64, modified: Timestamp, content: &[u8]) -> FileEntry {
    FileEntry {
        relative_path: path.to_string(),
        size,
        modified,
        hash: Digest::of(content),
        is_dir: false,
        mode: 0,
    }
}

fn listed(path: &str, is_dir: bool, content: &[u8], secs: i64) -> Listed {
    Listed {
        path: format!("/root/{}", path),
        relative_path: path.to_string(),
        is_root: false,
        is_dir,
        size: content.len() as u64,
        modified_secs: Some(secs),
    }
}

/// The index of files that have these contents and times.
fn index(files: &[(&str, &[u8], i64)]) -> Table<FileEntry> {
    let listing: Vec<Listed> = files
        .iter()
        .map(|(p, c, t)| listed(p, false, c, *t))
        .collect();
    let contents: Vec<Option<Digest>> = files
        .iter()
        .map(|(_, c, _)| Some(SyncEngine::compute_file_hash(c)))
        .collect();
    SyncEngine::build_file_index(&listing, &contents, &at(0))
}

fn paths(entries: &[FileEntry]) -> Vec<&str> {
    entries.iter().map(|e| e.relative_path.as_str()).collect()
}

fn some(s: &str) -> Option<String> {
    Some(s.to_string())
}

#[test]
fn test_compute_file_hash() {
    let hash = SyncEngine::compute_file_hash(b"hello crossbag");
    let expected = blake3::hash(b"hello crossbag");
    assert_eq!(hash.bytes, *expected.as_bytes());
}

#[test]
fn test_compute_file_hash_different() {
    let h1 = SyncEngine::compute_file_hash(b"hello");
    let h2 = SyncEngine::compute_file_hash(b"world");
    assert_ne!(h1.bytes, h2.bytes);
}

#[test]
fn test_build_file_index() {
    let listing = vec![
        Listed {
            path: "/root".into(),
            relative_path: "".into(),
            is_root: true,
            is_dir: true,
            size: 4096,
            modified_secs: Some(1),
        },
        listed("readme.md", false, b"# Test", 5),
        listed("src", true, b"", 5),
        listed("src/main.rs", false, b"fn main() {}", 5),
        listed("subdir", true, b"", 5),
        listed("subdir/config.toml", false, b"[test]\nkey = \"val\"", 5),
    ];
    let contents = vec![
        None,
        Some(Digest::of(b"# Test")),
        None,
        Some(Digest::of(b"fn main() {}")),
        None,
        Some(Digest::of(b"[test]\nkey = \"val\"")),
    ];
    let index = SyncEngine::build_file_index(&listing, &contents, &Timestamp::now());
    let mut file_count = 0;
    for i in 0..index.len() {
        let entry = index.value_at(i);
        assert!(!entry.relative_path.is_empty());
        if !entry.is_dir {
            file_count += 1;
            assert_ne!(entry.hash.bytes, [0; 32]);
        } else {
            assert_eq!(entry.hash.bytes, [0; 32]);
        }
    }
    assert!(
        file_count >= 2,
        "Expected at least 2 files, got {}",
        file_count
    );
    assert_eq!(file_count, 3);
    assert_eq!(index.len(), 5);
}

#[test]
fn test_build_file_index_with_exclude() {
    let patterns = vec!["*.tmp".to_string()];
    let met: [(&str, &[u8]); 3] = [
        ("keep.txt", b"keep"),
        ("skip.tmp", b"skip"),
        ("node_modules/pkg.js", b"console.log('x')"),
    ];
    let kept: Vec<(&str, &[u8], i64)> = met
        .iter()
        .filter(|(p, _)| {
            let name = p.rsplit('/').next().unwrap();
            keeps_entry(&some(&format!("/root/{}", p)), &some(p), &some(name), &patterns)
        })
        .map(|(p, c)| (*p, *c, 1))
        .collect();
    let index = index(&kept);
    let paths: Vec<String> = (0..index.len())
        .map(|i| index.value_at(i).relative_path.clone())
        .collect();
    assert!(paths.iter().any(|p| p.contains("keep.txt")));
    assert!(!paths.iter().any(|p| p.contains("skip.tmp")));
}

#[test]
fn test_diff_indexes() {
    let now = Timestamp::now();
    let mut local = Table::new();
    local.insert("/local/a.txt".into(), entry("a.txt", 10, now, b"a"));

    let mut remote = Table::new();
    remote.insert("/remote/b.txt".into(), entry("b.txt", 20, now, b"b"));

    let (local_only, remote_only) = SyncEngine::diff_indexes(&local, &remote);

    assert_eq!(local_only.len(), 1);
    assert_eq!(remote_only.len(), 1);
    assert_eq!(local_only[0].relative_path, "a.txt");
    assert_eq!(remote_only[0].relative_path, "b.txt");
}

#[test]
fn test_diff_indexes_identical() {
    let now = Timestamp::now();
    let mut local = Table::new();
    local.insert("/a/same.txt".into(), entry("same.txt", 10, now, b"same"));

    let mut remote = Table::new();
    remote.insert("/b/same.txt".into(), entry("same.txt", 10, now, b"same"));

    let (local_only, remote_only) = SyncEngine::diff_indexes(&local, &remote);
    assert_eq!(local_only.len(), 0);
    assert_eq!(remote_only.len(), 0);
}

#[test]
fn test_chunk_read_write() {
    let original = vec![0u8; 100000];
    let chunks = SyncEngine::read_file_chunks(&original, 4096);
    let expected_chunks = (100000u64 + 4095) / 4096;
    assert_eq!(chunks.len() as u64, expected_chunks);

    let written = SyncEngine::write_file_chunks(&chunks);
    assert_eq!(original, written);
}

#[test]
fn test_verify_file() {
    let hash = Digest::of(b"verify me");
    assert!(SyncEngine::verify_file(b"verify me", &hash));

    let wrong_hash = Digest::of(b"wrong");
    assert!(!SyncEngine::verify_file(b"verify me", &wrong_hash));
}

#[test]
fn hashing_in_pieces() {
    let data: Vec<u8> = (0..30_000u32).map(|i| (i % 251) as u8).collect();
    let whole = blake3::hash(&data);
    assert_eq!(SyncEngine::compute_file_hash(&data).bytes, *whole.as_bytes());
    let mut hasher = ContentHasher::new();
    for piece in data.chunks(777) {
        hasher.update(piece);
    }
    assert_eq!(hasher.finish().bytes, *whole.as_bytes());
    assert!(hasher.finish().same(&Digest::of(&data)));
    assert_eq!(
        SyncEngine::compute_file_hash(b"").bytes,
        *blake3::hash(b"").as_bytes()
    );
}

#[test]
fn entries_of_an_index() {
    let now = Timestamp::new(77, 5).unwrap();
    let mut unknown = listed("a", false, b"xyz", 0);
    unknown.modified_secs = None;
    let mut far = listed("b", false, b"xyz", 0);
    far.modified_secs = Some(i64::MAX);
    let dir = listed("d", true, b"", 9);
    let known = listed("c", false, b"xyz", 9);
    let contents = vec![None, Some(Digest::of(b"xyz")), Some(Digest::of(b"d")), None];
    let index =
        SyncEngine::build_file_index(&vec![unknown, far, dir, known], &contents, &now);
    let a = index.get("/root/a").unwrap();
    assert_eq!(a.modified, now);
    assert_eq!(a.hash.bytes, [0; 32]);
    assert_eq!(a.size, 3);
    assert_eq!(a.mode, 0);
    let b = index.get("/root/b").unwrap();
    assert_eq!(b.modified, now);
    assert!(b.hash.same(&Digest::of(b"xyz")));
    let d = index.get("/root/d").unwrap();
    assert!(d.is_dir);
    assert_eq!(d.hash.bytes, [0; 32]);
    let c = index.get("/root/c").unwrap();
    assert_eq!(c.modified, at(9));
    assert!(!c.is_dir);
}

#[test]
fn what_a_walk_passes_over() {
    let none: Vec<String> = vec![];
    let keeps = |path: &str, rel: &str, name: &str, patterns: &[&str]| {
        keeps_entry(
            &some(path),
            &some(rel),
            &some(name),
            &patterns.iter().map(|p| p.to_string()).collect(),
        )
    };
    assert!(keeps("/r/a.txt", "a.txt", "a.txt", &[]));
    assert!(!keeps("/r/.git", ".git", ".git", &[]));
    assert!(keeps("/r/.", ".", ".", &[]));
    assert!(!keeps("/r/..", "..", "..", &[]));
    assert!(!keeps("/r/a.tmp", "a.tmp", "a.tmp", &["*.log", "*.tmp"]));
    assert!(keeps("/r/a.txt", "a.txt", "a.txt", &["*.log", "*.tmp"]));
    // By the relative path, the whole path and the name.
    assert!(!keeps("/r/node_modules/x", "node_modules/x", "x", &["node_modules/**"]));
    assert!(!keeps("/r/sub/x", "sub/x", "x", &["/r/sub/*"]));
    assert!(!keeps("/r/sub/target", "sub/target", "target", &["target"]));
    // Backslashes do not get in the way of a pattern without separators.
    assert!(!keeps("C:\\r\\a.log", "a.log", "a.txt", &["*.log"]));
    assert!(!keeps("C:\\r\\a", "x\\y.log", "a", &["q\\*", "*.log"]));
    assert!(keeps("C:\\r\\a.txt", "a.txt", "a.txt", &["*.log"]));
    assert!(!keeps("/r/a.log", "a.log", "a.log", &["x\\y", "*.log"]));
    // A pattern that is none matches nothing.
    assert!(keeps("/r/a[", "a[", "a[", &["a["]));
    // Without names nothing matches.
    assert!(keeps_entry(&None, &None, &None, &vec!["*".to_string()]));
    assert!(keeps_entry(&None, &None, &None, &none));
    assert!(!unhidden(&some("a"), true));
    assert!(unhidden(&some("a"), false));
    assert!(!unhidden(&some(".a"), false));
    assert!(unhidden(&None, false));
}

#[test]
fn an_index_holds_each_path_once() {
    let listing = vec![
        listed("a", false, b"1", 1),
        listed("b", false, b"2", 2),
        listed("b", false, b"2", 2),
        listed("c", true, b"", 3),
    ];
    let contents = vec![Some(Digest::of(b"1")), Some(Digest::of(b"2")), None, None];
    let index = SyncEngine::build_file_index(&listing, &contents, &at(9));
    assert_eq!(index.len(), 3);
    let held: Vec<&str> = (0..3).map(|i| index.value_at(i).relative_path.as_str()).collect();
    assert_eq!(held, vec!["a", "b", "c"]);
    assert_eq!(index.value_at(1).hash.bytes, [0; 32]);
}

#[test]
fn newer_versions_win() {
    let local = index(&[("a", b"new", 20), ("b", b"old", 10), ("c", b"x", 5), ("d", b"1", 1)]);
    let remote = index(&[("a", b"old", 10), ("b", b"new", 20), ("c", b"y", 5), ("e", b"2", 1)]);
    let (give, get) = SyncEngine::diff_indexes(&local, &remote);
    assert_eq!(paths(&give), vec!["a", "d"]);
    assert_eq!(paths(&get), vec!["b", "c", "e"]);
    // What is got is the remote version.
    assert!(get[0].hash.same(&Digest::of(b"new")));
    assert!(get[1].hash.same(&Digest::of(b"y")));

    // The other side sees it the other way round, but for the tie.
    let (give, get) = SyncEngine::diff_indexes(&remote, &local);
    assert_eq!(paths(&give), vec!["b", "e"]);
    assert_eq!(paths(&get), vec!["a", "c", "d"]);
}

#[test]
fn an_exchange_makes_both_sides_equal() {
    let mut local = index(&[("a", b"new", 20), ("b", b"old", 10), ("c", b"x", 5), ("d", b"1", 1)]);
    let mut remote = index(&[("a", b"old", 10), ("b", b"new", 20), ("c", b"y", 5), ("e", b"2", 1)]);
    let (give, get) = SyncEngine::diff_indexes(&local, &remote);
    for e in &give {
        remote.insert(format!("/root/{}", e.relative_path), e.copy());
    }
    for e in &get {
        local.insert(format!("/root/{}", e.relative_path), e.copy());
    }
    let (give, get) = SyncEngine::diff_indexes(&local, &remote);
    assert!(give.is_empty());
    assert!(get.is_empty());
    assert_eq!(local.len(), 5);
    assert_eq!(remote.len(), 5);
}

#[test]
fn each_side_fetches_what_it_lacks() {
    let mut local = index(&[("a", b"new", 20), ("b", b"old", 10), ("d", b"1", 1)]);
    let mut remote = index(&[("a", b"old", 10), ("b", b"new", 20), ("e", b"2", 1)]);
    let here = SyncEngine::diff_indexes(&local, &remote).1;
    let there = SyncEngine::diff_indexes(&remote, &local).1;
    for e in &here {
        local.insert(format!("/root/{}", e.relative_path), e.copy());
    }
    for e in &there {
        remote.insert(format!("/root/{}", e.relative_path), e.copy());
    }
    let (give, get) = SyncEngine::diff_indexes(&local, &remote);
    assert!(give.is_empty());
    assert!(get.is_empty());
    assert_eq!(local.len(), 4);
}

#[test]
fn chunks_of_every_length() {
    for n in 0..20usize {
        let data: Vec<u8> = (0..n as u8).collect();
        for size in 1..8usize {
            let chunks = SyncEngine::read_file_chunks(&data, size);
            assert_eq!(chunks.len(), (n + size - 1) / size);
            assert!(chunks.iter().rev().skip(1).all(|c| c.len() == size));
            assert!(chunks.iter().all(|c| !c.is_empty()));
            assert_eq!(SyncEngine::write_file_chunks(&chunks), data);
        }
    }
    assert_eq!(
        SyncEngine::read_file_chunks(&[1, 2, 3, 4, 5], 2),
        vec![vec![1, 2], vec![3, 4], vec![5]]
    );
}

#[test]
fn a_full_synchronisation() {
    let mut c = CrossBagConfig::for_node(NodeId { bytes: [0; 16] }, "n".into(), "i".into());
    c.put_peer("p".into(), "P".into(), "a:1".into());
    c.add_pair("docs".into(), "/l".into(), "p".into(), "/r".into())
        .unwrap();
    let c = Arc::new(c);
    let mut engine = SyncEngine::new(c.clone());
    let r = engine.full_sync(&c.sync_pairs[0], Ok(index(&[("a", b"1", 1)])));
    assert_eq!(r.pair_id, "docs");
    assert!(r.errors.is_empty());
    let r = engine.full_sync(&c.sync_pairs[0], Err("no such directory".into()));
    assert_eq!(
        r.errors,
        vec!["Failed to build local index: no such directory"]
    );
    assert_eq!(r.files_synced, 0);
    assert_eq!(r.files_deleted, 0);
    assert_eq!(r.bytes_transferred, 0);
}

#[test]
fn the_default_strategy() {
    assert_eq!(ConflictStrategy::default(), ConflictStrategy::NewerWins);
}

#[test]
fn a_table_keeps_its_keys() {
    let mut t: Table<u32> = Table::new();
    assert!(t.is_empty());
    t.insert("b".into(), 1);
    t.insert("a".into(), 2);
    t.insert("b".into(), 3);
    assert_eq!(t.len(), 2);
    assert_eq!(t.key_at(0), "b");
    assert_eq!(*t.value_at(0), 3);
    assert_eq!(t.get("a"), Some(&2));
    assert_eq!(t.get("c"), None);
    assert!(t.contains_key("b"));
    assert!(!t.is_empty());
}
