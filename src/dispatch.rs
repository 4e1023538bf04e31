use vstd::prelude::*;
use crate::content::{blake3_hex, hash_file, fresh_id, get_file_type, type_label};
use crate::events::{FileEvent, FileEventType};
use crate::ledger::{fresh_job, job_selector};
use crate::queue::enqueue_time;
use crate::records::{JobStatus, StatusFilter};
use crate::store::{
    deleted, file_pos_by_path, has_file_id, has_file_path, has_job_id, upserted, Database, DbError,
    StoreModel,
};

verus! {

/// Some job of `file_id` is still pending.
pub open spec fn has_pending_job(jobs: Seq<crate::records::Job>, file_id: Seq<char>) -> bool {
    exists|i: int|
        0 <= i < jobs.len() && (#[trigger] jobs[i]).file_id@ == file_id && jobs[i].status
            == JobStatus::Pending
}

/// Whether applying an event of this kind for `path` creates a job: always on
/// create, on modify only when the file has no pending job, never on delete.
pub open spec fn needs_job(m: StoreModel, kind: FileEventType, path: Seq<char>) -> bool {
    match kind {
        FileEventType::Create => true,
        FileEventType::Modify => !(has_file_path(m.files, path) && has_pending_job(
            m.jobs,
            m.files[file_pos_by_path(m.files, path)].id@,
        )),
        FileEventType::Delete => false,
    }
}

/// The store after a create or modify of `path` with `content`, given the
/// identifiers a new record and a new job would take.
pub open spec fn refreshed(
    m: StoreModel,
    n: StoreModel,
    kind: FileEventType,
    path: Seq<char>,
    content: Seq<u8>,
    file_id: Seq<char>,
    job_id: Seq<char>,
    now: u64,
) -> bool {
    &&& upserted(
        m.files,
        n.files,
        file_id,
        path,
        type_label(content),
        blake3_hex(content),
        content.len() as u64,
        now,
    )
    &&& if needs_job(m, kind, path) {
        &&& n.jobs.len() == m.jobs.len() + 1
        &&& n.jobs.drop_last() == m.jobs
        &&& fresh_job(n.jobs.last(), job_id, n.files[file_pos_by_path(n.files, path)].id@, now)
    } else {
        n.jobs == m.jobs
    }
    &&& n.embeddings == m.embeddings
    &&& n.events == m.events
    &&& n.next_event_id == m.next_event_id
}

/// The identifiers that a create or modify of `path` would need are taken.
pub open spec fn ids_clash(
    m: StoreModel,
    kind: FileEventType,
    path: Seq<char>,
    file_id: Seq<char>,
    job_id: Seq<char>,
) -> bool {
    (needs_job(m, kind, path) && has_job_id(m.jobs, job_id)) || (!has_file_path(m.files, path)
        && has_file_id(m.files, file_id))
}

impl Database {
    /// Applies one drained change event with the identifiers a new record and a
    /// new job would take. A create or modify records the content's type label,
    /// hash and size for the path; a create adds a pending job, a modify adds
    /// one only when the file has none pending. A delete removes the record
    /// with its jobs and embeddings. `content` is read only on create and modify.
    pub fn apply_file_event_with_ids(
        &mut self,
        event: &FileEvent,
        content: &[u8],
        file_id: String,
        job_id: String,
        now: u64,
    ) -> (r: Result<(), DbError>)
        requires
            old(self).wf(),
        ensures
            final(self).wf(),
            r is Err ==> *final(self) == *old(self),
            event.event_type == FileEventType::Delete ==> {
                &&& r is Ok <==> has_file_path(old(self)@.files, event.path@)
                &&& r is Err ==> r == Err::<(), DbError>(DbError::NotFound)
                &&& r is Ok ==> deleted(old(self)@, final(self)@, event.path@)
            },
            event.event_type != FileEventType::Delete ==> {
                &&& r is Err <==> ids_clash(
                    old(self)@,
                    event.event_type,
                    event.path@,
                    file_id@,
                    job_id@,
                )
                &&& r is Err ==> r == Err::<(), DbError>(DbError::DuplicateId)
                &&& r is Ok ==> refreshed(
                    old(self)@,
                    final(self)@,
                    event.event_type,
                    event.path@,
                    content@,
                    file_id@,
                    job_id@,
                    now,
                )
            },
    {
        if event.event_type == FileEventType::Delete {
            return match self.delete_file(event.path.as_str()) {
                Ok(_) => Ok(()),
                Err(e) => Err(e),
            };
        }
        let ghost m = self@;
        // decide on the job before touching the files table
        let create_job = match event.event_type {
            FileEventType::Create => true,
            _ => match self.find_file_by_path(&event.path) {
                None => true,
                Some(i) => {
                    let fid = self.files[i].id.clone();
                    let pending = self.get_jobs_by_file_id(
                        fid.as_str(),
                        StatusFilter::Only(JobStatus::Pending),
                    );
                    proof {
                        assert(m.files[i as int].path@ == event.path@);
                        assert(file_pos_by_path(m.files, event.path@) == i);
                        let sel = job_selector(fid@, StatusFilter::Only(JobStatus::Pending));
                        if has_pending_job(m.jobs, fid@) {
                            let j = choose|j: int|
                                0 <= j < m.jobs.len() && (#[trigger] m.jobs[j]).file_id@ == fid@
                                    && m.jobs[j].status == JobStatus::Pending;
                            m.jobs.lemma_filter_contains(sel, j);
                        } else {
                            if pending@.len() > 0 {
                                let x = pending@[0];
                                m.jobs.lemma_filter_pred(sel, 0);
                                assert(m.jobs.filter(sel).contains(x));
                                m.jobs.lemma_filter_contains_rev(sel, x);
                                let k = choose|k: int| 0 <= k < m.jobs.len() && m.jobs[k] == x;
                                assert(m.jobs[k].file_id@ == fid@);
                            }
                        }
                    }
                    pending.len() == 0
                },
            },
        };
        assert(create_job == needs_job(m, event.event_type, event.path@));
        if create_job && self.find_job(&job_id).is_some() {
            return Err(DbError::DuplicateId);
        }
        let file_type = get_file_type(content);
        let hash = hash_file(content);
        let size = content.len() as u64;
        let rec = match self.upsert_file_with_id(
            file_id,
            event.path.as_str(),
            file_type.as_str(),
            hash.as_str(),
            size,
            now,
        ) {
            Ok(rec) => rec,
            Err(e) => {
                return Err(e);
            },
        };
        if create_job {
            let res = self.insert_job_with_id(job_id, rec.id.as_str(), now);
            proof {
                let p = file_pos_by_path(self@.files, event.path@);
                assert(has_file_id(self@.files, rec.id@)) by {
                    assert(self@.files[p] == rec);
                }
            }
            assert(res is Ok);
        }
        Ok(())
    }

    /// Applies one change event, as `apply_file_event_with_ids` describes,
    /// with fresh random identifiers for a new record and a new job.
    pub fn apply_file_event(&mut self, event: &FileEvent, content: &[u8], now: u64) -> (r: Result<
        (),
        DbError,
    >)
        requires
            old(self).wf(),
        ensures
            final(self).wf(),
            r is Err ==> *final(self) == *old(self),
            event.event_type == FileEventType::Delete ==> {
                &&& r is Ok <==> has_file_path(old(self)@.files, event.path@)
                &&& r is Err ==> r == Err::<(), DbError>(DbError::NotFound)
                &&& r is Ok ==> deleted(old(self)@, final(self)@, event.path@)
            },
            event.event_type != FileEventType::Delete ==> {
                &&& r is Err ==> r == Err::<(), DbError>(DbError::DuplicateId)
                &&& r is Err ==> needs_job(old(self)@, event.event_type, event.path@)
                    || !has_file_path(old(self)@.files, event.path@)
                &&& r is Ok ==> exists|file_id: Seq<char>, job_id: Seq<char>|
                    refreshed(
                        old(self)@,
                        final(self)@,
                        event.event_type,
                        event.path@,
                        content@,
                        file_id,
                        job_id,
                        now,
                    )
            },
    {
        let file_id = fresh_id();
        let job_id = fresh_id();
        let ghost (f, j) = (file_id@, job_id@);
        let r = self.apply_file_event_with_ids(event, content, file_id, job_id, now);
        proof {
            if r is Ok && event.event_type != FileEventType::Delete {
                assert(refreshed(
                    old(self)@,
                    self@,
                    event.event_type,
                    event.path@,
                    content@,
                    f,
                    j,
                    now,
                ));
            }
        }
        r
    }

    /// Receives one change notification: it is persisted at once in the event
    /// log, stamped no earlier than any event before it, and applied later,
    /// when a drain picks it (see `apply_file_event`). Nothing is hashed or
    /// read here, so a burst of notifications never waits on file work.
    pub fn handle_file_event(&mut self, event: &FileEvent, now: u64) -> (r: Result<(), DbError>)
        requires
            old(self).wf(),
        ensures
            final(self).wf(),
            r is Err <==> old(self)@.next_event_id == u64::MAX,
            r is Err ==> r == Err::<(), DbError>(DbError::LogFull) && *final(self) == *old(self),
            r is Ok ==> {
                let e = final(self)@.events.last();
                &&& final(self)@.events.drop_last() == old(self)@.events
                &&& final(self)@.events.len() == old(self)@.events.len() + 1
                &&& e.id == old(self)@.next_event_id
                &&& e.path@ == event.path@
                &&& e.event_type == event.event_type
                &&& e.created_at == enqueue_time(old(self)@.events, now)
                &&& forall|i: int|
                    0 <= i < old(self)@.events.len() ==> (#[trigger] old(self)@.events[i]).created_at
                        <= e.created_at
                &&& !e.processed
                &&& final(self)@.next_event_id == old(self)@.next_event_id + 1
                &&& final(self)@.files == old(self)@.files
                &&& final(self)@.jobs == old(self)@.jobs
                &&& final(self)@.embeddings == old(self)@.embeddings
            },
    {
        self.enqueue(event.path.as_str(), event.event_type, now)
    }
}

} // verus!
