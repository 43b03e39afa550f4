//! Two nodes, kept in step. The directories are lists of files in memory.

use crossbag::clock::Timestamp;
use crossbag::digest::Digest;
use crossbag::identity::NodeId;
use crossbag::protocol::{FileEntry, FileIndex, Message};
use crossbag::scan::{keeps_entry, Listed};
use crossbag::sync::SyncEngine;
use crossbag::table::Table;
use std::collections::BTreeMap;

/// The files of a node: content and time.
type Dir = BTreeMap<String, (Vec<u8>, i64)>;

fn write_file(dir: &mut Dir, name: &str, content: &[u8], secs: i64) {
    dir.insert(name.to_string(), (content.to_vec(), secs));
}

/// What a walk through the directory meets, without what it passes over.
fn build_file_index(dir: &Dir) -> Table<FileEntry> {
    let mut listing = Vec::new();
    let mut contents = Vec::new();
    for (name, (content, secs)) in dir {
        let base = name.rsplit('/').next().unwrap().to_string();
        if !keeps_entry(
            &Some(format!("/dir/{}", name)),
            &Some(name.clone()),
            &Some(base),
            &vec![],
        ) {
            continue;
        }
        listing.push(Listed {
            path: format!("/dir/{}", name),
            relative_path: name.clone(),
            is_root: false,
            is_dir: false,
            size: content.len() as u64,
            modified_secs: Some(*secs),
        });
        contents.push(Some(SyncEngine::compute_file_hash(content)));
    }
    SyncEngine::build_file_index(&listing, &contents, &Timestamp::now())
}

/// The digests of the files of an index, by relative path.
fn file_hashes(index: &Table<FileEntry>) -> BTreeMap<String, [u8; 32]> {
    (0..index.len())
        .map(|i| index.value_at(i))
        .filter(|e| !e.is_dir)
        .map(|e| (e.relative_path.clone(), e.hash.bytes))
        .collect()
}

fn dirs_are_identical(a: &Dir, b: &Dir) -> bool {
    file_hashes(&build_file_index(a)) == file_hashes(&build_file_index(b))
}

fn transfer(entries: &[FileEntry], from: &Dir, to: &mut Dir) {
    for e in entries {
        let file = from.get(&e.relative_path).unwrap().clone();
        to.insert(e.relative_path.clone(), file);
    }
}

#[test]
fn test_initial_full_sync() {
    let mut node_a = Dir::new();
    let mut node_b = Dir::new();
    write_file(&mut node_a, "readme.md", b"# CrossBag Docs", 1);
    write_file(&mut node_a, "config.toml", b"[core]\nversion = \"1.0\"", 1);
    write_file(
        &mut node_a,
        "src/main.rs",
        b"fn main() { println!(\"hello\"); }",
        1,
    );

    let index_a = build_file_index(&node_a);
    let index_b = build_file_index(&node_b);
    let (local_only, remote_only) = SyncEngine::diff_indexes(&index_a, &index_b);

    assert!(!local_only.is_empty(), "node_a should have new files");
    assert!(remote_only.is_empty(), "node_b should be empty");

    transfer(&local_only, &node_a, &mut node_b);
    assert!(
        dirs_are_identical(&node_a, &node_b),
        "After sync, dirs should be identical"
    );
}

#[test]
fn test_incremental_sync_modified_file() {
    let mut node_a = Dir::new();
    let mut node_b = Dir::new();
    write_file(&mut node_a, "data.txt", b"original content", 1);
    write_file(&mut node_b, "data.txt", b"original content", 1);
    write_file(&mut node_a, "data.txt", b"modified content on node A", 3);

    let index_a = build_file_index(&node_a);
    let index_b = build_file_index(&node_b);
    let (local_only, _remote_only) = SyncEngine::diff_indexes(&index_a, &index_b);

    assert!(
        local_only.iter().any(|e| e.relative_path == "data.txt"),
        "Modified file should appear in local_only"
    );

    transfer(&local_only, &node_a, &mut node_b);
    assert!(dirs_are_identical(&node_a, &node_b));
}

#[test]
fn test_sync_nested_directories() {
    let mut node_a = Dir::new();
    let mut node_b = Dir::new();
    write_file(&mut node_a, "src/main.rs", b"fn main() {}", 1);
    write_file(
        &mut node_a,
        "src/lib.rs",
        b"pub fn add(a: i32, b: i32) -> i32 { a + b }",
        1,
    );
    write_file(&mut node_a, "src/utils/helpers.rs", b"pub fn greet() {}", 1);
    write_file(&mut node_a, "tests/test_main.rs", b"#[test]\nfn test() {}", 1);
    write_file(&mut node_a, "Cargo.toml", b"[package]\nname = \"test\"", 1);
    write_file(&mut node_a, ".gitignore", b"target/", 1);

    let index_a = build_file_index(&node_a);
    let index_b = build_file_index(&node_b);
    let (local_only, _remote_only) = SyncEngine::diff_indexes(&index_a, &index_b);
    transfer(&local_only, &node_a, &mut node_b);

    let index_b_after = build_file_index(&node_b);
    let b_hashes = file_hashes(&index_b_after);
    let b_files: Vec<&str> = b_hashes.keys().map(|k| k.as_str()).collect();
    assert!(b_files
        .iter()
        .any(|p| p.contains("main.rs") && p.contains("src")));
    assert!(b_files
        .iter()
        .any(|p| p.contains("lib.rs") && p.contains("src")));
    assert!(b_files.iter().any(|p| p.contains("helpers.rs")));
    assert!(b_files.iter().any(|p| p.contains("test_main.rs")));
    assert!(b_files.iter().any(|p| p.contains("Cargo.toml")));
    assert!(!b_files.iter().any(|p| p.contains(".gitignore")));

    assert!(dirs_are_identical(&node_a, &node_b));
}

#[test]
fn test_delete_detection() {
    let mut node_a = Dir::new();
    let mut node_b = Dir::new();
    write_file(&mut node_a, "a.txt", b"file a", 1);
    write_file(&mut node_a, "b.txt", b"file b", 1);
    write_file(&mut node_b, "a.txt", b"file a", 1);
    write_file(&mut node_b, "b.txt", b"file b", 1);
    node_a.remove("b.txt");

    let index_a = build_file_index(&node_a);
    let index_b = build_file_index(&node_b);
    let (_local_only, remote_only) = SyncEngine::diff_indexes(&index_a, &index_b);

    assert!(
        remote_only.iter().any(|e| e.relative_path == "b.txt"),
        "Deleted file should appear in remote_only (remote still has it)"
    );
}

#[test]
fn test_large_file_chunk_transfer() {
    let data = vec![0xABu8; 2 * 1024 * 1024];
    let chunks = SyncEngine::read_file_chunks(&data, 65536);
    let expected_chunks = (data.len() as f64 / 65536.0).ceil() as usize;
    assert_eq!(chunks.len(), expected_chunks);

    let out = SyncEngine::write_file_chunks(&chunks);

    let original_hash = SyncEngine::compute_file_hash(&data);
    let restored_hash = SyncEngine::compute_file_hash(&out);
    assert_eq!(original_hash.bytes, restored_hash.bytes);
}

#[test]
fn test_bidirectional_conflict_detection() {
    let mut node_a = Dir::new();
    let mut node_b = Dir::new();
    write_file(&mut node_a, "shared.txt", b"version 1", 5);
    write_file(&mut node_b, "shared.txt", b"version 1", 5);
    write_file(&mut node_a, "shared.txt", b"modified by A", 5);
    write_file(&mut node_b, "shared.txt", b"modified by B", 5);

    let index_a = build_file_index(&node_a);
    let index_b = build_file_index(&node_b);
    let (local_only, remote_only) = SyncEngine::diff_indexes(&index_a, &index_b);

    assert!(
        local_only.iter().any(|e| e.relative_path == "shared.txt")
            || remote_only.iter().any(|e| e.relative_path == "shared.txt"),
        "At least one side should detect the modification"
    );
}

#[test]
fn test_hash_verification_pipeline() {
    let file = b"original".to_vec();
    let hash1 = SyncEngine::compute_file_hash(&file);
    assert!(SyncEngine::verify_file(&file, &hash1));

    let file = b"modified".to_vec();
    assert!(!SyncEngine::verify_file(&file, &hash1));

    let hash2 = SyncEngine::compute_file_hash(&file);
    assert_ne!(hash1.bytes, hash2.bytes);
    assert!(SyncEngine::verify_file(&file, &hash2));
}

#[test]
fn test_protocol_message_pipeline() {
    let files: Vec<FileEntry> = (0..100)
        .map(|i| FileEntry {
            relative_path: format!("dir/file_{}.txt", i),
            size: (i * 1024) as u64,
            modified: Timestamp::now(),
            hash: Digest::of(format!("content_{}", i).as_bytes()),
            is_dir: false,
            mode: 0,
        })
        .collect();

    let msg = Message::FileIndex(FileIndex {
        pair_id: "integration-test".into(),
        files,
        timestamp: Timestamp::now(),
    });

    let encoded = msg.to_bytes().unwrap();
    assert!(encoded.len() > 100, "Encoded message should be substantial");

    let decoded = Message::from_bytes(&encoded).unwrap();
    match decoded {
        Message::FileIndex(index) => {
            assert_eq!(index.pair_id, "integration-test");
            assert_eq!(index.files.len(), 100);
        }
        _ => panic!("Wrong message type"),
    }
}

#[test]
fn identifiers_have_their_notation() {
    let id = NodeId {
        bytes: [
            0x55, 0x0e, 0x84, 0x00, 0xe2, 0x9b, 0x41, 0xd4, 0xa7, 0x16, 0x44, 0x66, 0x55, 0x44,
            0x00, 0x0f,
        ],
    };
    assert_eq!(id.text(), "550e8400-e29b-41d4-a716-44665544000f");
    assert_ne!(NodeId::new_v4().bytes, NodeId::new_v4().bytes);
}

#[test]
fn points_in_time() {
    assert!(Timestamp::new(i64::MAX, 0).is_none());
    assert!(Timestamp::new(crossbag::clock::MAX_SECS + 1, 0).is_none());
    assert!(Timestamp::new(crossbag::clock::MIN_SECS - 1, 0).is_none());
    assert!(Timestamp::new(0, 1_000_000_000).is_none());
    assert!(Timestamp::new(59, 1_999_999_999).is_some());
    assert!(Timestamp::new(59, 2_000_000_000).is_none());
    assert!(Timestamp::new(-1, 1_000_000_000).is_some());
    let a = Timestamp::new(5, 7).unwrap();
    let b = Timestamp::new(5, 8).unwrap();
    let c = Timestamp::new(6, 0).unwrap();
    assert!(b.is_after(&a) && c.is_after(&b) && !a.is_after(&a) && !a.is_after(&c));
    assert!(a.same(&a) && !a.same(&b));
    assert_eq!(a.text(), "1970-01-01T00:00:05.000000007Z");
    assert_eq!(Timestamp::parse("1970-01-01T00:00:05.000000007Z"), Some(a));
    assert_eq!(Timestamp::parse("1970-01-01 00:00:06 UTC"), Some(c));
    assert_eq!(Timestamp::parse("soon"), None);
    for (secs, nanos) in [
        (crossbag::clock::MIN_SECS, 0),
        (crossbag::clock::MAX_SECS, 999_999_999),
        (-62_167_219_201, 1),
        (253_402_300_800, 1_000),
        (1_483_228_799, 1_999_999_999),
    ] {
        let t = Timestamp::new(secs, nanos).unwrap();
        assert_eq!(Timestamp::parse(&t.text()), Some(t));
    }
    let before = Timestamp::now();
    assert!(before.secs() > 1_700_000_000);
    assert!(!before.is_after(&Timestamp::now()));
}
