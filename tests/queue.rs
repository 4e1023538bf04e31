use bako::events::{ChangeEvent, FileEvent, FileEventType, NotifyEvent, NotifyKind, NotifyPath};
use bako::store::Database;

fn paths_of(events: &[ChangeEvent]) -> Vec<String> {
    events.iter().map(|e| e.path.clone()).collect()
}

#[test]
fn event_type_names_round_trip() {
    for t in [FileEventType::Create, FileEventType::Modify, FileEventType::Delete] {
        assert_eq!(FileEventType::from_string(t.as_str()), Some(t));
    }
    assert_eq!(FileEventType::Create.as_str(), "create");
    assert_eq!(FileEventType::Delete.as_str(), "delete");
    assert_eq!(FileEventType::from_string("rename"), None);
    assert_eq!(FileEventType::from_string("Create"), None);
    assert_eq!(FileEventType::from_string(""), None);
}

#[test]
fn enqueue_appends_in_order() {
    let mut db = Database::new();
    db.enqueue("/a.txt", FileEventType::Create, 5).unwrap();
    db.enqueue("/a.txt", FileEventType::Create, 5).unwrap();
    let evs = db.events();
    assert_eq!(evs.len(), 2);
    assert_eq!(evs[0].id, 0);
    assert_eq!(evs[1].id, 1);
    assert!(!evs[0].processed);
    assert_eq!(evs[1].created_at, 5);
}

#[test]
fn drain_keeps_newest_event_per_path() {
    let mut db = Database::new();
    db.enqueue("/a.txt", FileEventType::Create, 1).unwrap();
    db.enqueue("/b.txt", FileEventType::Create, 2).unwrap();
    db.enqueue("/a.txt", FileEventType::Modify, 3).unwrap();
    db.enqueue("/a.txt", FileEventType::Delete, 4).unwrap();
    let drained = db.drain_pending(10);
    assert_eq!(paths_of(&drained), vec!["/b.txt".to_string(), "/a.txt".to_string()]);
    assert_eq!(drained[1].event_type, FileEventType::Delete);
    assert_eq!(drained[1].created_at, 4);
    // draining reads without consuming
    assert_eq!(db.drain_pending(10).len(), 2);
}

#[test]
fn drain_newest_wins_whatever_the_kind() {
    let mut db = Database::new();
    db.enqueue("/x", FileEventType::Delete, 10).unwrap();
    db.enqueue("/x", FileEventType::Create, 11).unwrap();
    let drained = db.drain_pending(10);
    assert_eq!(drained.len(), 1);
    assert_eq!(drained[0].event_type, FileEventType::Create);
}

#[test]
fn drain_breaks_timestamp_ties_by_insertion() {
    let mut db = Database::new();
    db.enqueue("/x", FileEventType::Create, 7).unwrap();
    db.enqueue("/x", FileEventType::Modify, 7).unwrap();
    db.enqueue("/y", FileEventType::Create, 7).unwrap();
    let drained = db.drain_pending(10);
    assert_eq!(paths_of(&drained), vec!["/x".to_string(), "/y".to_string()]);
    assert_eq!(drained[0].event_type, FileEventType::Modify);
    assert_eq!(drained[0].id, 1);
}

#[test]
fn drain_respects_limit_oldest_first() {
    let mut db = Database::new();
    db.enqueue("/c", FileEventType::Create, 10).unwrap();
    db.enqueue("/a", FileEventType::Create, 20).unwrap();
    db.enqueue("/b", FileEventType::Create, 30).unwrap();
    db.mark_processed("/c", 10);
    db.enqueue("/c", FileEventType::Modify, 40).unwrap();
    assert_eq!(paths_of(&db.drain_pending(2)), vec!["/a".to_string(), "/b".to_string()]);
    assert_eq!(paths_of(&db.drain_pending(3))[2], "/c");
    assert!(db.drain_pending(0).is_empty());
    assert!(Database::new().drain_pending(5).is_empty());
}

#[test]
fn drain_skips_processed_events() {
    let mut db = Database::new();
    db.enqueue("/a", FileEventType::Create, 1).unwrap();
    db.enqueue("/a", FileEventType::Modify, 2).unwrap();
    assert_eq!(db.mark_processed("/a", 1), 1);
    let drained = db.drain_pending(10);
    assert_eq!(drained.len(), 1);
    assert_eq!(drained[0].event_type, FileEventType::Modify);
    assert_eq!(db.mark_processed("/a", 2), 1);
    assert!(db.drain_pending(10).is_empty());
}

#[test]
fn mark_processed_is_idempotent() {
    let mut db = Database::new();
    db.enqueue("/a", FileEventType::Create, 1).unwrap();
    db.enqueue("/a", FileEventType::Modify, 2).unwrap();
    db.enqueue("/a", FileEventType::Modify, 9).unwrap();
    db.enqueue("/b", FileEventType::Create, 1).unwrap();
    assert_eq!(db.mark_processed("/a", 5), 2);
    assert_eq!(db.mark_processed("/a", 5), 0);
    let evs = db.events();
    assert!(evs[0].processed && evs[1].processed);
    assert!(!evs[2].processed);
    assert!(!evs[3].processed);
}

#[test]
fn mark_processed_unknown_path_counts_zero() {
    let mut db = Database::new();
    db.enqueue("/a", FileEventType::Create, 1).unwrap();
    assert_eq!(db.mark_processed("/zzz", 100), 0);
    assert_eq!(db.mark_processed("/a", 0), 0);
}

#[test]
fn notify_events_are_normalized() {
    let ev = NotifyEvent {
        kind: NotifyKind::Create,
        paths: vec![
            NotifyPath { path: Some("/d/a.txt".to_string()), is_file: true },
            NotifyPath { path: Some("/d/dir".to_string()), is_file: false },
            NotifyPath { path: None, is_file: true },
        ],
    };
    let out = FileEvent::from_notify_event(ev);
    assert_eq!(out.len(), 1);
    assert_eq!(out[0].path, "/d/a.txt");
    assert_eq!(out[0].event_type, FileEventType::Create);
}

#[test]
fn notify_remove_keeps_paths_that_no_longer_exist() {
    let ev = NotifyEvent {
        kind: NotifyKind::Remove,
        paths: vec![
            NotifyPath { path: Some("/gone".to_string()), is_file: false },
            NotifyPath { path: Some("/gone2".to_string()), is_file: false },
        ],
    };
    let out = FileEvent::from_notify_event(ev);
    assert_eq!(out.len(), 2);
    assert_eq!(out[1].path, "/gone2");
    assert_eq!(out[1].event_type, FileEventType::Delete);
}

#[test]
fn notify_access_and_other_are_ignored() {
    for kind in [NotifyKind::Access, NotifyKind::Other, NotifyKind::Any] {
        let ev = NotifyEvent {
            kind,
            paths: vec![NotifyPath { path: Some("/f".to_string()), is_file: true }],
        };
        assert!(FileEvent::from_notify_event(ev).is_empty());
    }
    let ev = NotifyEvent {
        kind: NotifyKind::Modify,
        paths: vec![NotifyPath { path: Some("/f".to_string()), is_file: true }],
    };
    assert_eq!(FileEvent::from_notify_event(ev)[0].event_type, FileEventType::Modify);
}

#[test]
fn clock_going_back_never_reorders_the_log() {
    let mut db = Database::new();
    db.enqueue("/a", FileEventType::Create, 50).unwrap();
    db.enqueue("/a", FileEventType::Delete, 20).unwrap();
    let evs = db.events();
    assert_eq!(evs[1].created_at, 50);
    let drained = db.drain_pending(10);
    assert_eq!(drained.len(), 1);
    assert_eq!(drained[0].event_type, FileEventType::Delete);
    db.enqueue("/a", FileEventType::Create, 60).unwrap();
    assert_eq!(db.events()[2].created_at, 60);
}
