use bako::batch::{decide_outcome, JobOutcome};
use bako::content::{hash_file, get_file_type};
use bako::events::{FileEvent, FileEventType};
use bako::records::{Config, JobStatus, StatusFilter};
use bako::store::{Database, DbError};

fn event(path: &str, t: FileEventType) -> FileEvent {
    FileEvent { path: path.to_string(), event_type: t }
}

/// Handles every drained event with the given file contents and marks it processed.
fn process_drained(db: &mut Database, contents: &[(&str, &[u8])], now: u64) {
    for ev in db.drain_pending(10) {
        let bytes: Vec<u8> = contents
            .iter()
            .find(|(p, _)| *p == ev.path)
            .map(|(_, b)| b.to_vec())
            .unwrap_or_default();
        db.apply_file_event(&FileEvent { path: ev.path.clone(), event_type: ev.event_type }, &bytes, now)
            .unwrap();
        db.mark_processed(&ev.path, ev.created_at);
    }
}

#[test]
fn content_hash_is_blake3_hex() {
    assert_eq!(
        hash_file(b""),
        "af1349b9f5f9a1a6a0404dea36dcc9499bcb25c9adc112b7cc9a93cae41f3262"
    );
    assert_eq!(hash_file(b"abc"), blake3::hash(b"abc").to_hex().to_string());
    assert_eq!(hash_file(b"abc").len(), 64);
    assert!(hash_file(b"abc").chars().all(|c| c.is_ascii_digit() || ('a'..='f').contains(&c)));
    assert_ne!(hash_file(b"abc"), hash_file(b"abd"));
}

#[test]
fn file_type_sniffs_or_falls_back_to_text() {
    let png = [0x89u8, 0x50, 0x4E, 0x47, 0x0D, 0x0A, 0x1A, 0x0A, 0, 0, 0, 0];
    assert_eq!(get_file_type(&png), "image/png");
    assert_eq!(get_file_type(b"hello world"), "text/plain");
    assert_eq!(get_file_type(b""), "text/plain");
    let mut big = png.to_vec();
    big.resize(20000, b'a');
    assert_eq!(get_file_type(&big), "image/png");
}

#[test]
fn config_defaults() {
    let c = Config::new();
    assert_eq!(c.db_path, "bako.db");
    assert_eq!(c.watch_directory, ".");
    assert_eq!(c.watcher_poll_duration_secs, 3);
    assert_eq!(c.queue_process_interval_secs, 28);
    assert_eq!(c.queue_batch_size, 10);
}

#[test]
fn create_records_file_and_one_job() {
    let mut db = Database::new();
    db.apply_file_event(&event("/a.txt", FileEventType::Create), b"hello", 7).unwrap();
    let files = db.files();
    assert_eq!(files.len(), 1);
    assert_eq!(files[0].path, "/a.txt");
    assert_eq!(files[0].hash, blake3::hash(b"hello").to_hex().to_string());
    assert_eq!(files[0].size, 5);
    assert_eq!(files[0].file_type, "text/plain");
    let jobs = db.get_jobs_by_file_id(&files[0].id, StatusFilter::Any);
    assert_eq!(jobs.len(), 1);
    assert_eq!(jobs[0].status, JobStatus::Pending);
}

#[test]
fn create_twice_adds_a_job_each_time() {
    let mut db = Database::new();
    db.apply_file_event(&event("/a", FileEventType::Create), b"1", 1).unwrap();
    db.apply_file_event(&event("/a", FileEventType::Create), b"2", 2).unwrap();
    assert_eq!(db.files().len(), 1);
    assert_eq!(db.jobs().len(), 2);
}

#[test]
fn modify_adds_job_only_without_pending_one() {
    let mut db = Database::new();
    db.apply_file_event(&event("/a", FileEventType::Create), b"1", 1).unwrap();
    db.apply_file_event(&event("/a", FileEventType::Modify), b"22", 2).unwrap();
    assert_eq!(db.jobs().len(), 1);
    assert_eq!(db.files()[0].size, 2);
    let j = db.jobs()[0].id.clone();
    db.update_job(&j, JobStatus::Completed, None).unwrap();
    db.apply_file_event(&event("/a", FileEventType::Modify), b"333", 3).unwrap();
    assert_eq!(db.jobs().len(), 2);
    assert_eq!(db.get_queue_size(), 1);
}

#[test]
fn modify_of_unknown_path_creates_record_and_job() {
    let mut db = Database::new();
    db.apply_file_event(&event("/new", FileEventType::Modify), b"x", 1).unwrap();
    assert_eq!(db.files().len(), 1);
    assert_eq!(db.jobs().len(), 1);
}

#[test]
fn delete_event_removes_file_jobs_and_embeddings() {
    let mut db = Database::new();
    db.apply_file_event(&event("/a", FileEventType::Create), b"1", 1).unwrap();
    let fid = db.files()[0].id.clone();
    db.insert_embedding(&fid, "[0.1]", 2).unwrap();
    db.apply_file_event(&event("/a", FileEventType::Delete), b"", 3).unwrap();
    assert!(db.files().is_empty());
    assert!(db.jobs().is_empty());
    assert!(db.get_embeddings_by_file_id(&fid).is_empty());
    assert_eq!(
        db.apply_file_event(&event("/a", FileEventType::Delete), b"", 4).unwrap_err(),
        DbError::NotFound
    );
}

#[test]
fn handle_with_taken_job_id_changes_nothing() {
    let mut db = Database::new();
    db.apply_file_event_with_ids(&event("/a", FileEventType::Create), b"1", "f1".to_string(), "j1".to_string(), 1)
        .unwrap();
    let r = db.apply_file_event_with_ids(
        &event("/b", FileEventType::Create),
        b"2",
        "f2".to_string(),
        "j1".to_string(),
        2,
    );
    assert_eq!(r.unwrap_err(), DbError::DuplicateId);
    assert_eq!(db.files().len(), 1);
    assert_eq!(db.jobs().len(), 1);
}

#[test]
fn create_then_modify_in_one_window_gives_one_job() {
    let mut db = Database::new();
    db.enqueue("/a.txt", FileEventType::Create, 100).unwrap();
    db.enqueue("/a.txt", FileEventType::Modify, 101).unwrap();
    let drained = db.drain_pending(10);
    assert_eq!(drained.len(), 1);
    assert_eq!(drained[0].path, "/a.txt");
    assert_eq!(drained[0].event_type, FileEventType::Modify);
    process_drained(&mut db, &[("/a.txt", b"content")], 102);
    let files = db.files();
    assert_eq!(files.len(), 1);
    assert_eq!(db.get_jobs_by_file_id(&files[0].id, StatusFilter::Any).len(), 1);
    assert!(db.drain_pending(10).is_empty());
}

#[test]
fn round_trip_hash_and_embedding() {
    let bytes: &[u8] = b"known bytes of a file";
    let mut db = Database::new();
    db.enqueue("/r.txt", FileEventType::Create, 1).unwrap();
    process_drained(&mut db, &[("/r.txt", bytes)], 2);
    let file = db.files()[0].duplicate();
    assert_eq!(file.hash, blake3::hash(bytes).to_hex().to_string());
    let batch = db.pending_batch(10);
    assert_eq!(batch.len(), 1);
    db.commit_batch(&batch, &vec![JobOutcome::Embedded("[0.1,0.2]".to_string())], 3).unwrap();
    let embs = db.get_embeddings_by_file_id(&file.id);
    assert_eq!(embs.len(), 1);
    assert_eq!(embs[0].file_id, file.id);
    assert_eq!(embs[0].embedding, "[0.1,0.2]");
    assert_eq!(db.jobs()[0].status, JobStatus::Completed);
}

#[test]
fn batch_with_vanished_file_fails_only_that_job() {
    let mut db = Database::new();
    for (i, p) in ["/1", "/2", "/3"].iter().enumerate() {
        db.apply_file_event(&event(p, FileEventType::Create), p.as_bytes(), i as u64).unwrap();
    }
    let batch = db.pending_batch(10);
    assert_eq!(batch.len(), 3);
    let outcomes = vec![
        JobOutcome::Embedded("[1]".to_string()),
        JobOutcome::Vanished,
        JobOutcome::Embedded("[3]".to_string()),
    ];
    db.commit_batch(&batch, &outcomes, 10).unwrap();
    let jobs = db.jobs();
    assert_eq!(jobs[0].status, JobStatus::Completed);
    assert_eq!(jobs[0].error_message, None);
    assert_eq!(jobs[1].status, JobStatus::Failed);
    assert_eq!(jobs[1].error_message.as_deref(), Some("file vanished"));
    assert_eq!(jobs[2].status, JobStatus::Completed);
    assert_eq!(db.get_embeddings_by_file_id(&batch[0].file_id).len(), 1);
    assert!(db.get_embeddings_by_file_id(&batch[1].file_id).is_empty());
    assert_eq!(db.get_embeddings_by_file_id(&batch[2].file_id)[0].embedding, "[3]");
    assert_eq!(db.get_queue_size(), 0);
}

#[test]
fn failed_outcome_records_message() {
    let mut db = Database::new();
    db.apply_file_event(&event("/1", FileEventType::Create), b"1", 1).unwrap();
    let batch = db.pending_batch(10);
    db.commit_batch(&batch, &vec![JobOutcome::Failed("API error: 500".to_string())], 2).unwrap();
    let jobs = db.jobs();
    assert_eq!(jobs[0].status, JobStatus::Failed);
    assert_eq!(jobs[0].error_message.as_deref(), Some("API error: 500"));
}

#[test]
fn pending_batch_takes_at_most_limit() {
    let mut db = Database::new();
    for (i, p) in ["/1", "/2", "/3"].iter().enumerate() {
        db.apply_file_event(&event(p, FileEventType::Create), b"x", i as u64).unwrap();
    }
    let batch = db.pending_batch(2);
    assert_eq!(batch.len(), 2);
    assert_eq!(batch[0].created_at, 0);
    assert_eq!(batch[1].created_at, 1);
    assert!(db.pending_batch(0).is_empty());
}

#[test]
fn invalid_batch_commits_nothing() {
    let mut db = Database::new();
    db.apply_file_event(&event("/1", FileEventType::Create), b"1", 1).unwrap();
    let batch = db.pending_batch(10);
    db.commit_batch(&batch, &vec![JobOutcome::Failed("x".to_string())], 2).unwrap();
    // the job is finished now, so committing it again is refused
    let r = db.commit_batch(&batch, &vec![JobOutcome::Embedded("[1]".to_string())], 3);
    assert_eq!(r.unwrap_err(), DbError::InvalidBatch);
    assert_eq!(db.jobs()[0].status, JobStatus::Failed);
    assert!(db.get_embeddings_by_file_id(&batch[0].file_id).is_empty());
}

#[test]
fn duplicate_job_in_batch_is_refused() {
    let mut db = Database::new();
    db.apply_file_event(&event("/1", FileEventType::Create), b"1", 1).unwrap();
    let mut batch = db.pending_batch(10);
    batch.push(batch[0].duplicate());
    let r = db.commit_batch(&batch, &vec![JobOutcome::Failed("a".to_string()), JobOutcome::Failed("b".to_string())], 2);
    assert_eq!(r.unwrap_err(), DbError::InvalidBatch);
    assert_eq!(db.get_queue_size(), 1);
}

#[test]
fn taken_embedding_id_refuses_the_batch() {
    let mut db = Database::new();
    db.apply_file_event(&event("/1", FileEventType::Create), b"1", 1).unwrap();
    let fid = db.files()[0].id.clone();
    db.insert_embedding_with_id("e1".to_string(), &fid, "[0]", 2).unwrap();
    let batch = db.pending_batch(10);
    let r = db.commit_batch_with_ids(
        &batch,
        &vec![JobOutcome::Embedded("[1]".to_string())],
        &vec!["e1".to_string()],
        3,
    );
    assert_eq!(r.unwrap_err(), DbError::InvalidBatch);
    assert_eq!(db.get_embeddings_by_file_id(&fid).len(), 1);
    assert_eq!(db.get_queue_size(), 1);
}

#[test]
fn outcome_decision_by_observation() {
    assert!(matches!(decide_outcome(false, true, Ok("[1]".to_string())), JobOutcome::Vanished));
    assert!(matches!(decide_outcome(true, false, Err("e".to_string())), JobOutcome::Vanished));
    match decide_outcome(true, true, Ok("[1]".to_string())) {
        JobOutcome::Embedded(v) => assert_eq!(v, "[1]"),
        _ => panic!("expected a vector"),
    }
    match decide_outcome(true, true, Err("timeout".to_string())) {
        JobOutcome::Failed(m) => assert_eq!(m, "timeout"),
        _ => panic!("expected a failure"),
    }
}

#[test]
fn batch_without_vectors_commits() {
    let mut db = Database::new();
    db.apply_file_event(&event("/1", FileEventType::Create), b"1", 1).unwrap();
    db.apply_file_event(&event("/2", FileEventType::Create), b"2", 1).unwrap();
    let batch = db.pending_batch(10);
    db.commit_batch(&batch, &vec![JobOutcome::Vanished, JobOutcome::Failed("read error".to_string())], 2)
        .unwrap();
    let jobs = db.jobs();
    assert_eq!(jobs[0].error_message.as_deref(), Some("file vanished"));
    assert_eq!(jobs[1].error_message.as_deref(), Some("read error"));
}

#[test]
fn handle_file_event_persists_the_notification() {
    let mut db = Database::new();
    db.handle_file_event(&event("/a.txt", FileEventType::Create), 5).unwrap();
    db.handle_file_event(&event("/a.txt", FileEventType::Modify), 3).unwrap();
    let evs = db.events();
    assert_eq!(evs.len(), 2);
    assert_eq!(evs[1].path, "/a.txt");
    assert_eq!(evs[1].event_type, FileEventType::Modify);
    assert!(!evs[1].processed);
    assert_eq!(evs[1].created_at, 5);
    // nothing is applied until a drain picks the event
    assert!(db.files().is_empty());
    assert!(db.jobs().is_empty());
    assert_eq!(db.drain_pending(10)[0].event_type, FileEventType::Modify);
}
