//! Changes of files, and how they are gathered.

use crossbag::daemon::{flush_batch, SyncAction, WatcherBridge};
use crossbag::watcher::{
    classify_event, ChangeCollector, EventClass, FileChange, FileWatcher, WatchError,
};

fn created(p: &str) -> FileChange {
    FileChange::Created(p.to_string())
}

fn modified(p: &str) -> FileChange {
    FileChange::Modified(p.to_string())
}

fn removed(p: &str) -> FileChange {
    FileChange::Removed(p.to_string())
}

fn renamed(p: &str, q: &str) -> FileChange {
    FileChange::Renamed {
        from: p.to_string(),
        to: q.to_string(),
    }
}

fn show(changes: &[FileChange]) -> Vec<String> {
    changes.iter().map(|c| format!("{:?}", c)).collect()
}

#[test]
fn what_events_report() {
    let one = vec!["/a".to_string()];
    let two = vec!["/a".to_string(), "/b".to_string()];
    let none: Vec<String> = vec![];
    let seen = |class, paths: &Vec<String>| classify_event(class, paths).map(|c| show(&[c]));
    assert_eq!(seen(EventClass::FileCreated, &one), Some(show(&[created("/a")])));
    assert_eq!(seen(EventClass::FolderCreated, &two), Some(show(&[created("/a")])));
    assert_eq!(seen(EventClass::DataModified, &one), Some(show(&[modified("/a")])));
    assert_eq!(seen(EventClass::MetadataModified, &one), Some(show(&[modified("/a")])));
    assert_eq!(seen(EventClass::FileRemoved, &one), Some(show(&[removed("/a")])));
    assert_eq!(seen(EventClass::FolderRemoved, &one), Some(show(&[removed("/a")])));
    assert_eq!(seen(EventClass::NameModified, &two), Some(show(&[renamed("/a", "/b")])));
    assert_eq!(seen(EventClass::NameModified, &one), None);
    assert_eq!(seen(EventClass::Other, &two), None);
    assert_eq!(seen(EventClass::FileCreated, &none), None);
}

#[test]
fn directories_are_watched_once() {
    let mut w = FileWatcher::new(500);
    assert_eq!(w.start().err(), Some(WatchError::NoPaths));
    assert_eq!(
        WatchError::NoPaths.text(),
        "No paths configured for watching"
    );
    w.watch_path("/b", true);
    w.watch_path("/gone", false);
    w.watch_path("/a", true);
    w.watch_path("/b", true);
    assert_eq!(*w.start().unwrap(), vec!["/b", "/a"]);
}

#[test]
fn repeated_changes_are_merged() {
    let mut c = ChangeCollector::new(250);
    assert_eq!(c.debounce_interval(), 250);
    let batch = c.collect_batch(vec![
        modified("/a"),
        created("/a"),
        modified("/a"),
        renamed("/a", "/b"),
        removed("/a"),
        renamed("/a", "/b"),
        removed("/a"),
        modified("/b"),
        created("/a"),
    ]);
    assert_eq!(
        show(&batch),
        show(&[
            modified("/a"),
            created("/a"),
            renamed("/a", "/b"),
            removed("/a"),
            renamed("/a", "/b"),
            modified("/b"),
        ])
    );
    assert!(c.take().is_empty());

    c.add(created("/x"));
    assert!(c.contains_same_path(&created("/x")));
    assert!(!c.contains_same_path(&created("/y")));
    assert!(!c.contains_same_path(&removed("/x")));
    c.add(created("/x"));
    assert_eq!(show(&c.take()), show(&[created("/x")]));
    assert!(c.collect_batch(vec![]).is_empty());
}

#[test]
fn batches_go_out_after_a_while() {
    let mut b = WatcherBridge::new(500);
    assert!(b.on_change(created("/a"), 0).is_empty());
    assert!(b.on_change(created("/a"), 499).is_empty());
    assert_eq!(
        show(&b.on_change(created("/b"), 500)),
        show(&[created("/a"), created("/a"), created("/b")])
    );
    assert!(b.on_timeout().is_empty());
    assert!(b.on_change(removed("/c"), 1).is_empty());
    assert_eq!(show(&b.on_timeout()), show(&[removed("/c")]));
    // Without a pause every change goes out at once.
    let mut b = WatcherBridge::new(0);
    assert_eq!(show(&b.on_change(created("/a"), 0)), show(&[created("/a")]));
}

#[test]
fn a_batch_is_for_every_pair() {
    let batch = vec![created("/a"), removed("/b")];
    let actions = flush_batch(&batch, &vec!["one".to_string(), "two".to_string()]);
    assert_eq!(actions.len(), 2);
    for (action, id) in actions.iter().zip(["one", "two"]) {
        match action {
            SyncAction::LocalChange { pair_id, changes } => {
                assert_eq!(pair_id, id);
                assert_eq!(show(changes), show(&batch));
            }
            _ => panic!("no change"),
        }
    }
    assert!(flush_batch(&batch, &vec![]).is_empty());
}
