use bako::records::{JobStatus, StatusFilter};
use bako::store::{Database, DbError};

fn store_with_file(path: &str) -> (Database, String) {
    let mut db = Database::new();
    let f = db.upsert_file(path, "text/plain", "h0", 3, 1).unwrap();
    (db, f.id)
}

#[test]
fn status_names_round_trip() {
    for s in [JobStatus::Pending, JobStatus::Running, JobStatus::Completed, JobStatus::Failed] {
        assert_eq!(JobStatus::from_string(s.as_str()), Some(s));
    }
    assert_eq!(JobStatus::Completed.as_str(), "completed");
    assert_eq!(JobStatus::from_string("done"), None);
}

#[test]
fn status_transitions_only_move_forward() {
    assert!(JobStatus::Pending.can_move_to(JobStatus::Running));
    assert!(JobStatus::Pending.can_move_to(JobStatus::Completed));
    assert!(JobStatus::Running.can_move_to(JobStatus::Failed));
    assert!(!JobStatus::Running.can_move_to(JobStatus::Pending));
    assert!(!JobStatus::Pending.can_move_to(JobStatus::Pending));
    assert!(!JobStatus::Completed.can_move_to(JobStatus::Failed));
    assert!(!JobStatus::Failed.can_move_to(JobStatus::Completed));
}

#[test]
fn upsert_keeps_identity_of_a_path() {
    let mut db = Database::new();
    let first = db.upsert_file("/a", "text/plain", "h1", 1, 10).unwrap();
    assert_eq!(first.id.len(), 36);
    assert_eq!(first.created_at, 10);
    let second = db.upsert_file("/a", "image/png", "h2", 2, 20).unwrap();
    assert_eq!(second.id, first.id);
    assert_eq!(second.created_at, 10);
    assert_eq!(second.updated_at, 20);
    assert_eq!(second.hash, "h2");
    assert_eq!(second.file_type, "image/png");
    assert_eq!(second.size, 2);
    assert_eq!(db.files().len(), 1);
    assert_eq!(db.get_file(&first.id).unwrap().hash, "h2");
}

#[test]
fn upsert_with_taken_id_is_refused() {
    let mut db = Database::new();
    db.upsert_file_with_id("f1".to_string(), "/a", "t", "h", 1, 1).unwrap();
    let r = db.upsert_file_with_id("f1".to_string(), "/b", "t", "h", 1, 1);
    assert_eq!(r.unwrap_err(), DbError::DuplicateId);
    assert_eq!(db.files().len(), 1);
    // an existing path keeps its own identifier whatever id is offered
    let r = db.upsert_file_with_id("f9".to_string(), "/a", "t", "h3", 1, 2).unwrap();
    assert_eq!(r.id, "f1");
}

#[test]
fn recreating_a_deleted_path_gives_a_new_id() {
    let mut db = Database::new();
    let a = db.upsert_file("/a", "t", "h", 1, 1).unwrap();
    db.delete_file("/a").unwrap();
    let b = db.upsert_file("/a", "t", "h", 1, 2).unwrap();
    assert_ne!(a.id, b.id);
}

#[test]
fn get_and_delete_missing_file_is_not_found() {
    let mut db = Database::new();
    assert_eq!(db.get_file("nope").unwrap_err(), DbError::NotFound);
    assert_eq!(db.delete_file("/nope").unwrap_err(), DbError::NotFound);
}

#[test]
fn insert_job_needs_an_existing_file() {
    let mut db = Database::new();
    assert_eq!(db.insert_job("ghost", 1).unwrap_err(), DbError::MissingFile);
    assert!(db.jobs().is_empty());
}

#[test]
fn insert_job_with_taken_id_is_refused() {
    let (mut db, fid) = store_with_file("/a");
    db.insert_job_with_id("j1".to_string(), &fid, 1).unwrap();
    assert_eq!(db.insert_job_with_id("j1".to_string(), &fid, 2).unwrap_err(), DbError::DuplicateId);
    assert_eq!(db.jobs().len(), 1);
}

#[test]
fn insert_job_starts_pending() {
    let (mut db, fid) = store_with_file("/a");
    let id = db.insert_job(&fid, 42).unwrap();
    let jobs = db.jobs();
    assert_eq!(jobs.len(), 1);
    assert_eq!(jobs[0].id, id);
    assert_eq!(jobs[0].file_id, fid);
    assert_eq!(jobs[0].status, JobStatus::Pending);
    assert_eq!(jobs[0].error_message, None);
    assert_eq!(jobs[0].created_at, 42);
    assert_eq!(db.get_queue_size(), 1);
}

#[test]
fn jobs_by_file_and_status() {
    let (mut db, fa) = store_with_file("/a");
    let fb = db.upsert_file("/b", "t", "h", 1, 1).unwrap().id;
    let j1 = db.insert_job(&fa, 1).unwrap();
    let _j2 = db.insert_job(&fa, 2).unwrap();
    let _j3 = db.insert_job(&fb, 3).unwrap();
    db.update_job(&j1, JobStatus::Completed, None).unwrap();
    assert_eq!(db.get_jobs_by_file_id(&fa, StatusFilter::Any).len(), 2);
    let pending = db.get_jobs_by_file_id(&fa, StatusFilter::Only(JobStatus::Pending));
    assert_eq!(pending.len(), 1);
    assert_eq!(pending[0].created_at, 2);
    assert_eq!(db.get_jobs(JobStatus::Pending).len(), 2);
    assert_eq!(db.get_jobs(JobStatus::Completed)[0].id, j1);
    assert_eq!(db.get_queue_size(), 2);
    assert!(db.get_jobs_by_file_id("none", StatusFilter::Any).is_empty());
}

#[test]
fn update_job_batch_updates_all_listed() {
    let (mut db, fid) = store_with_file("/a");
    let j1 = db.insert_job(&fid, 1).unwrap();
    let j2 = db.insert_job(&fid, 2).unwrap();
    let j3 = db.insert_job(&fid, 3).unwrap();
    db.update_job_batch(&vec![j1.clone(), j3.clone()], JobStatus::Failed, Some("boom")).unwrap();
    let jobs = db.jobs();
    assert_eq!(jobs[0].status, JobStatus::Failed);
    assert_eq!(jobs[0].error_message.as_deref(), Some("boom"));
    assert_eq!(jobs[1].id, j2);
    assert_eq!(jobs[1].status, JobStatus::Pending);
    assert_eq!(jobs[2].status, JobStatus::Failed);
    assert_eq!(db.get_queue_size(), 1);
}

#[test]
fn update_job_batch_is_all_or_nothing_on_missing_job() {
    let (mut db, fid) = store_with_file("/a");
    let j1 = db.insert_job(&fid, 1).unwrap();
    let j2 = db.insert_job(&fid, 2).unwrap();
    let before = db.jobs();
    // the failure comes in the middle of the batch
    let r = db.update_job_batch(
        &vec![j1.clone(), "missing".to_string(), j2.clone()],
        JobStatus::Completed,
        None,
    );
    assert_eq!(r.unwrap_err(), DbError::NotFound);
    let after = db.jobs();
    for (b, a) in before.iter().zip(after.iter()) {
        assert_eq!(b.status, a.status);
        assert_eq!(b.error_message, a.error_message);
    }
    assert_eq!(db.get_queue_size(), 2);
}

#[test]
fn update_job_batch_is_all_or_nothing_on_bad_transition() {
    let (mut db, fid) = store_with_file("/a");
    let j1 = db.insert_job(&fid, 1).unwrap();
    let j2 = db.insert_job(&fid, 2).unwrap();
    db.update_job(&j2, JobStatus::Completed, None).unwrap();
    let r = db.update_job_batch(&vec![j1.clone(), j2.clone()], JobStatus::Failed, Some("x"));
    assert_eq!(r.unwrap_err(), DbError::InvalidTransition);
    let jobs = db.jobs();
    assert_eq!(jobs[0].status, JobStatus::Pending);
    assert_eq!(jobs[0].error_message, None);
    assert_eq!(jobs[1].status, JobStatus::Completed);
}

#[test]
fn update_job_on_missing_job_is_not_found() {
    let mut db = Database::new();
    assert_eq!(db.update_job("x", JobStatus::Running, None).unwrap_err(), DbError::NotFound);
}

#[test]
fn empty_batch_update_succeeds() {
    let (mut db, _fid) = store_with_file("/a");
    db.update_job_batch(&Vec::new(), JobStatus::Completed, None).unwrap();
}

#[test]
fn embeddings_need_an_existing_file() {
    let (mut db, fid) = store_with_file("/a");
    assert_eq!(db.insert_embedding("ghost", "[1.0]", 1).unwrap_err(), DbError::MissingFile);
    db.insert_embedding(&fid, "[0.5,0.25]", 2).unwrap();
    db.insert_embedding(&fid, "[0.75]", 3).unwrap();
    let embs = db.get_embeddings_by_file_id(&fid);
    assert_eq!(embs.len(), 2);
    assert_eq!(embs[0].embedding, "[0.5,0.25]");
    assert_eq!(embs[1].created_at, 3);
    db.insert_embedding_with_id("e1".to_string(), &fid, "[]", 4).unwrap();
    assert_eq!(
        db.insert_embedding_with_id("e1".to_string(), &fid, "[]", 5).unwrap_err(),
        DbError::DuplicateId
    );
}

#[test]
fn delete_cascades_to_jobs_and_embeddings() {
    let (mut db, fa) = store_with_file("/a");
    let fb = db.upsert_file("/b", "t", "h", 1, 1).unwrap().id;
    db.insert_job(&fa, 1).unwrap();
    db.insert_job(&fa, 2).unwrap();
    db.insert_job(&fb, 3).unwrap();
    db.insert_embedding(&fa, "[1]", 4).unwrap();
    db.insert_embedding(&fb, "[2]", 5).unwrap();
    let removed = db.delete_file("/a").unwrap();
    assert_eq!(removed.id, fa);
    assert_eq!(db.get_file(&fa).unwrap_err(), DbError::NotFound);
    assert!(db.get_jobs_by_file_id(&fa, StatusFilter::Any).is_empty());
    assert!(db.get_embeddings_by_file_id(&fa).is_empty());
    assert_eq!(db.jobs().len(), 1);
    assert_eq!(db.get_embeddings_by_file_id(&fb).len(), 1);
    assert_eq!(db.files().len(), 1);
}
