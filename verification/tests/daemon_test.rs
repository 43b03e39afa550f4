//! What the daemon does.

use crossbag::clock::Timestamp;
use crossbag::config::{CrossBagConfig, SyncDirection};
use crossbag::daemon::{index_by_path, DaemonError, FileAnswer, FileOnDisk, SyncDaemon};
use crossbag::digest::Digest;
use crossbag::identity::NodeId;
use crossbag::network::NetworkCommand;
use crossbag::protocol::{FileEntry, Message};
use crossbag::scan::Listed;
use crossbag::state::{FileStateEntry, SyncState};
use crossbag::sync::SyncEngine;
use crossbag::table::Table;
use std::sync::Arc;

fn at(secs: i64) -> Timestamp {
    Timestamp::new(secs, 0).unwrap()
}

fn config(direction: SyncDirection) -> CrossBagConfig {
    let mut c = CrossBagConfig::for_node(NodeId { bytes: [1; 16] }, "n".into(), "i".into());
    c.put_peer("office".into(), "Office".into(), "10.0.0.2:9527".into());
    c.add_pair("docs".into(), "/l".into(), "office".into(), "/r".into())
        .unwrap();
    c.sync_pairs[0].direction = direction;
    c.advanced.chunk_size = 4;
    c
}

fn daemon(direction: SyncDirection) -> SyncDaemon {
    SyncDaemon::new(Arc::new(config(direction)), vec![None])
}

fn listed(path: &str, content: &[u8], secs: i64) -> Listed {
    Listed {
        path: format!("/l/{}", path),
        relative_path: path.to_string(),
        is_root: false,
        is_dir: false,
        size: content.len() as u64,
        modified_secs: Some(secs),
    }
}

fn entry(path: &str, content: &[u8], secs: i64) -> FileEntry {
    FileEntry {
        relative_path: path.to_string(),
        size: content.len() as u64,
        modified: at(secs),
        hash: Digest::of(content),
        is_dir: false,
        mode: 0,
    }
}

fn index(entries: Vec<FileEntry>) -> Table<FileEntry> {
    let keys = entries.iter().map(|e| e.relative_path.clone()).collect();
    index_by_path(&keys, &entries)
}

fn message(c: &NetworkCommand) -> (&str, &Message) {
    match c {
        NetworkCommand::SendToPeer { peer_id, message } => (peer_id, message),
        NetworkCommand::Broadcast(_) => panic!("broadcast"),
    }
}

#[test]
fn local_changes_are_told_to_the_peer() {
    let mut d = daemon(SyncDirection::Bidirectional);
    let listing = vec![listed("a", b"one", 3)];
    assert_eq!(d.stale_files("docs", &listing, &at(9)).unwrap(), vec![true]);
    let command = d
        .handle_local_changes("docs", &listing, &vec![Some(Digest::of(b"one"))], &at(9))
        .unwrap()
        .unwrap();
    match message(&command) {
        ("office", Message::FileIndex(i)) => {
            assert_eq!(i.pair_id, "docs");
            assert_eq!(i.timestamp, at(9));
            assert_eq!(i.files.len(), 1);
            assert_eq!(i.files[0].relative_path, "a");
            assert!(i.files[0].hash.same(&Digest::of(b"one")));
        }
        m => panic!("{:?}", m),
    }
    assert_eq!(d.state("docs").unwrap().files.len(), 1);
    assert_eq!(d.state("docs").unwrap().last_sync, at(9));
    assert_eq!(d.stale_files("docs", &listing, &at(9)).unwrap(), vec![false]);
    assert!(d.state("other").is_none());
}

#[test]
fn a_pair_that_only_gets_tells_nothing() {
    let mut d = daemon(SyncDirection::PullOnly);
    let command = d
        .handle_local_changes("docs", &vec![listed("a", b"1", 3)], &vec![None], &at(9))
        .unwrap();
    assert!(command.is_none());
    assert_eq!(d.state("docs").unwrap().files.len(), 1);
    assert!(!d.handle_file_request("docs").unwrap());
    assert!(daemon(SyncDirection::PushOnly)
        .handle_file_request("docs")
        .unwrap());
}

#[test]
fn what_was_loaded_is_remembered() {
    let mut loaded = SyncState::starting_at("docs", at(1));
    loaded.files.insert(
        "a".into(),
        FileStateEntry {
            size: 3,
            modified: at(3),
            hash: Digest::of(b"one"),
        },
    );
    let d = SyncDaemon::new(
        Arc::new(config(SyncDirection::Bidirectional)),
        vec![Some(loaded)],
    );
    assert_eq!(
        d.stale_files("docs", &vec![listed("a", b"one", 3)], &at(9))
            .unwrap(),
        vec![false]
    );
}

#[test]
fn unknown_pairs_are_refused() {
    let mut d = daemon(SyncDirection::Bidirectional);
    let none: Table<FileEntry> = Table::new();
    let text = "Sync pair 'x' not found";
    assert_eq!(d.find_pair("x").unwrap_err().text(), text);
    assert_eq!(d.find_pair("docs").unwrap().local_path, "/l");
    assert_eq!(
        d.handle_local_changes("x", &vec![], &vec![], &at(1))
            .unwrap_err()
            .text(),
        text
    );
    assert_eq!(
        d.handle_remote_index("x", "office", &none, &none)
            .unwrap_err()
            .text(),
        text
    );
    assert_eq!(d.handle_file_request("x").unwrap_err().text(), text);
    assert_eq!(d.answer_peer("x", "office").unwrap_err().text(), text);
    assert_eq!(
        d.run_full_sync("x", Err("".into())).unwrap_err().text(),
        text
    );
    assert_eq!(
        d.stale_files("x", &vec![], &at(1)).unwrap_err().text(),
        "No state for pair 'x'"
    );
    assert_eq!(
        DaemonError::NoState("y".into()).text(),
        "No state for pair 'y'"
    );
}

#[test]
fn an_index_is_answered() {
    let local = index(vec![
        entry("both", b"new", 9),
        entry("mine", b"m", 1),
        entry("same", b"s", 1),
    ]);
    let remote = index(vec![
        entry("both", b"old", 3),
        entry("same", b"s", 5),
        entry("theirs", b"t", 1),
    ]);

    let d = daemon(SyncDirection::Bidirectional);
    let commands = d
        .handle_remote_index("docs", "office", &local, &remote)
        .unwrap();
    assert_eq!(commands.len(), 2);
    match message(&commands[0]) {
        ("office", Message::FileIndexAck(a)) => {
            assert_eq!(a.pair_id, "docs");
            assert_eq!(a.needed_files, vec!["theirs"]);
            assert_eq!(a.offered_files, vec!["both", "mine"]);
        }
        m => panic!("{:?}", m),
    }
    match message(&commands[1]) {
        ("office", Message::FileRequest(r)) => {
            assert_eq!(r.pair_id, "docs");
            assert_eq!(r.files, vec!["theirs"]);
        }
        m => panic!("{:?}", m),
    }

    // A pair that only gives asks for nothing.
    let commands = daemon(SyncDirection::PushOnly)
        .handle_remote_index("docs", "office", &local, &remote)
        .unwrap();
    assert_eq!(commands.len(), 1);
    match message(&commands[0]) {
        (_, Message::FileIndexAck(a)) => {
            assert!(a.needed_files.is_empty());
            assert_eq!(a.offered_files.len(), 2);
        }
        m => panic!("{:?}", m),
    }

    // A pair that only gets offers nothing.
    let commands = daemon(SyncDirection::PullOnly)
        .handle_remote_index("docs", "office", &local, &remote)
        .unwrap();
    assert_eq!(commands.len(), 1);
    assert!(matches!(message(&commands[0]).1, Message::FileRequest(_)));

    // Equal sides have nothing to say.
    let commands = d
        .handle_remote_index("docs", "office", &local, &local)
        .unwrap();
    assert!(commands.is_empty());
}

#[test]
fn where_answers_go() {
    let d = daemon(SyncDirection::Bidirectional);
    assert_eq!(d.answer_peer("docs", "office").unwrap(), "office");
    assert_eq!(d.answer_peer("docs", "10.0.0.2:4711").unwrap(), "office");
}

#[test]
fn later_entries_replace_earlier_ones() {
    let i = index(vec![entry("a", b"1", 1), entry("b", b"2", 1), entry("a", b"3", 1)]);
    assert_eq!(i.len(), 2);
    assert!(i.get("a").unwrap().hash.same(&Digest::of(b"3")));
}

#[test]
fn files_are_sent_in_chunks() {
    let d = daemon(SyncDirection::Bidirectional);
    let data = b"0123456789".to_vec();
    let commands = match d.answer_for_file("office", "x.txt", &FileOnDisk::Content(data.clone())) {
        FileAnswer::Send(c) => c,
        a => panic!("{:?}", a),
    };
    let mut parts = Vec::new();
    for (i, c) in commands.iter().enumerate() {
        match message(c) {
            ("office", Message::FileChunk(k)) => {
                assert_eq!(k.relative_path, "x.txt");
                assert_eq!(k.chunk_index, i as u32);
                assert_eq!(k.total_chunks, 3);
                assert!(SyncEngine::verify_file(&k.data, &k.chunk_hash));
                parts.push(k.data.clone());
            }
            m => panic!("{:?}", m),
        }
    }
    assert_eq!(parts.len(), 3);
    assert_eq!(parts[2], b"89");
    assert_eq!(SyncEngine::write_file_chunks(&parts), data);

    assert!(matches!(
        d.answer_for_file("office", "x", &FileOnDisk::Missing),
        FileAnswer::Skip
    ));
    assert!(matches!(
        d.answer_for_file("office", "x", &FileOnDisk::Unreadable),
        FileAnswer::Stop
    ));
    assert!(d.file_chunks("office", "empty", &[]).is_empty());
}

#[test]
fn full_synchronisations() {
    let mut d = daemon(SyncDirection::Bidirectional);
    let r = d
        .run_full_sync("docs", Ok(index(vec![entry("a", b"1", 1)])))
        .unwrap();
    assert_eq!(r.pair_id, "docs");
    assert!(r.errors.is_empty());
    let r = d.run_full_sync("docs", Err("gone".into())).unwrap();
    assert_eq!(r.errors, vec!["Failed to build local index: gone"]);
}
