use vstd::prelude::*;
use crate::content::fresh_id;
use crate::records::{can_transition, duplicate_message, filter_admits, Job, JobStatus, StatusFilter};
use crate::store::{has_file_id, has_job_id, store_wf, Database, DbError};

verus! {

/// The jobs of `file_id` that `filter` admits.
pub open spec fn job_selector(file_id: Seq<char>, filter: StatusFilter) -> spec_fn(Job) -> bool {
    |j: Job| j.file_id@ == file_id && filter_admits(filter, j.status)
}

/// The jobs in status `status`.
pub open spec fn status_is(status: JobStatus) -> spec_fn(Job) -> bool {
    |j: Job| j.status == status
}

/// A job just created for `file_id` under identifier `id`.
pub open spec fn fresh_job(j: Job, id: Seq<char>, file_id: Seq<char>, now: u64) -> bool {
    &&& j.id@ == id
    &&& j.file_id@ == file_id
    &&& j.status == JobStatus::Pending
    &&& j.error_message is None
    &&& j.created_at == now
}

pub open spec fn message_view(m: Option<String>) -> Option<Seq<char>> {
    match m {
        Some(s) => Some(s@),
        None => None,
    }
}

pub open spec fn str_message_view(m: Option<&str>) -> Option<Seq<char>> {
    match m {
        Some(s) => Some(s@),
        None => None,
    }
}

/// Whether `id` is listed in `ids`.
pub open spec fn listed(ids: Seq<String>, id: Seq<char>) -> bool {
    exists|k: int| 0 <= k < ids.len() && (#[trigger] ids[k])@ == id
}

/// The identifiers listed in `ids`.
pub open spec fn listed_in(ids: Seq<String>) -> spec_fn(Seq<char>) -> bool {
    |id: Seq<char>| listed(ids, id)
}

/// The position of the job with identifier `id`; meaningful when there is one.
pub open spec fn job_pos_by_id(jobs: Seq<Job>, id: Seq<char>) -> int {
    choose|i: int| 0 <= i < jobs.len() && (#[trigger] jobs[i]).id@ == id
}

/// Every listed job exists.
pub open spec fn all_listed_exist(jobs: Seq<Job>, ids: Seq<String>) -> bool {
    forall|k: int| 0 <= k < ids.len() ==> has_job_id(jobs, (#[trigger] ids[k])@)
}

/// Every listed job may move to `status`.
pub open spec fn all_listed_may_move(jobs: Seq<Job>, ids: Seq<String>, status: JobStatus) -> bool {
    forall|k: int|
        0 <= k < ids.len() ==> can_transition(
            jobs[job_pos_by_id(jobs, (#[trigger] ids[k])@)].status,
            status,
        )
}

/// `new_jobs` is `jobs` with every listed job set to `status` and `message`,
/// and every other job untouched.
pub open spec fn batch_applied(
    jobs: Seq<Job>,
    new_jobs: Seq<Job>,
    chosen: spec_fn(Seq<char>) -> bool,
    status: JobStatus,
    message: Option<Seq<char>>,
) -> bool {
    &&& new_jobs.len() == jobs.len()
    &&& forall|i: int|
        0 <= i < jobs.len() ==> if chosen((#[trigger] jobs[i]).id@) {
            &&& new_jobs[i].id == jobs[i].id
            &&& new_jobs[i].file_id == jobs[i].file_id
            &&& new_jobs[i].created_at == jobs[i].created_at
            &&& new_jobs[i].status == status
            &&& message_view(new_jobs[i].error_message) == message
        } else {
            new_jobs[i] == jobs[i]
        }
}

impl Database {
    /// A copy of the jobs table.
    pub fn jobs(&self) -> (r: Vec<Job>)
        ensures
            r@ == self@.jobs,
    {
        let mut r: Vec<Job> = Vec::new();
        let mut i: usize = 0;
        while i < self.jobs.len()
            invariant
                i <= self.jobs@.len(),
                r@ == self.jobs@.subrange(0, i as int),
            decreases self.jobs@.len() - i,
        {
            r.push(self.jobs[i].duplicate());
            i += 1;
            assert(r@ =~= self.jobs@.subrange(0, i as int));
        }
        assert(r@ =~= self.jobs@);
        r
    }

    pub(crate) fn find_job(&self, id: &String) -> (r: Option<usize>)
        ensures
            r matches Some(i) ==> i < self@.jobs.len() && self@.jobs[i as int].id@ == id@,
            r is None ==> !has_job_id(self@.jobs, id@),
    {
        let mut i: usize = 0;
        while i < self.jobs.len()
            invariant
                i <= self.jobs@.len(),
                forall|j: int| 0 <= j < i ==> (#[trigger] self.jobs@[j]).id@ != id@,
            decreases self.jobs@.len() - i,
        {
            if self.jobs[i].id == *id {
                return Some(i);
            }
            i += 1;
        }
        None
    }

    /// Adds a pending job for `file_id` under identifier `id`.
    pub fn insert_job_with_id(&mut self, id: String, file_id: &str, now: u64) -> (r: Result<
        (),
        DbError,
    >)
        requires
            old(self).wf(),
        ensures
            final(self).wf(),
            !has_file_id(old(self)@.files, file_id@) ==> r == Err::<(), DbError>(
                DbError::MissingFile,
            ),
            has_file_id(old(self)@.files, file_id@) && has_job_id(old(self)@.jobs, id@) ==> r
                == Err::<(), DbError>(DbError::DuplicateId),
            r is Ok <==> has_file_id(old(self)@.files, file_id@) && !has_job_id(
                old(self)@.jobs,
                id@,
            ),
            r is Err ==> *final(self) == *old(self),
            r is Ok ==> {
                &&& final(self)@.jobs.drop_last() == old(self)@.jobs
                &&& final(self)@.jobs.len() == old(self)@.jobs.len() + 1
                &&& fresh_job(final(self)@.jobs.last(), id@, file_id@, now)
                &&& final(self)@.files == old(self)@.files
                &&& final(self)@.embeddings == old(self)@.embeddings
                &&& final(self)@.events == old(self)@.events
                &&& final(self)@.next_event_id == old(self)@.next_event_id
            },
    {
        let fid = file_id.to_owned();
        if self.find_file_by_id(&fid).is_none() {
            return Err(DbError::MissingFile);
        }
        if self.find_job(&id).is_some() {
            return Err(DbError::DuplicateId);
        }
        let ghost old_jobs = self@.jobs;
        self.jobs.push(
            Job { id, file_id: fid, status: JobStatus::Pending, error_message: None, created_at: now },
        );
        proof {
            assert(self@.jobs.drop_last() =~= old_jobs);
            assert forall|a: int| 0 <= a < self@.jobs.len() implies has_file_id(
                self@.files,
                (#[trigger] self@.jobs[a]).file_id@,
            ) by {
                if a < old_jobs.len() {
                    assert(self@.jobs[a] == old_jobs[a]);
                }
            }
        }
        Ok(())
    }

    /// Adds a pending job for `file_id` under a fresh random identifier, which
    /// it returns. It does not look for other pending jobs of the file.
    pub fn insert_job(&mut self, file_id: &str, now: u64) -> (r: Result<String, DbError>)
        requires
            old(self).wf(),
        ensures
            final(self).wf(),
            !has_file_id(old(self)@.files, file_id@) ==> r == Err::<String, DbError>(
                DbError::MissingFile,
            ),
            r is Err ==> *final(self) == *old(self) && (r == Err::<String, DbError>(
                DbError::MissingFile,
            ) || r == Err::<String, DbError>(DbError::DuplicateId)),
            r == Err::<String, DbError>(DbError::MissingFile) ==> !has_file_id(
                old(self)@.files,
                file_id@,
            ),
            r matches Ok(id) ==> {
                &&& final(self)@.jobs.drop_last() == old(self)@.jobs
                &&& final(self)@.jobs.len() == old(self)@.jobs.len() + 1
                &&& fresh_job(final(self)@.jobs.last(), id@, file_id@, now)
                &&& final(self)@.files == old(self)@.files
                &&& final(self)@.embeddings == old(self)@.embeddings
                &&& final(self)@.events == old(self)@.events
                &&& final(self)@.next_event_id == old(self)@.next_event_id
            },
    {
        let id = fresh_id();
        let out = id.clone();
        match self.insert_job_with_id(id, file_id, now) {
            Ok(()) => Ok(out),
            Err(e) => Err(e),
        }
    }

    /// The jobs of `file_id` that `filter` admits, in table order.
    pub fn get_jobs_by_file_id(&self, file_id: &str, filter: StatusFilter) -> (r: Vec<Job>)
        ensures
            r@ == self@.jobs.filter(job_selector(file_id@, filter)),
    {
        let fid = file_id.to_owned();
        let mut r: Vec<Job> = Vec::new();
        let mut k: usize = 0;
        while k < self.jobs.len()
            invariant
                k <= self@.jobs.len(),
                fid@ == file_id@,
                r@ == self@.jobs.subrange(0, k as int).filter(job_selector(file_id@, filter)),
            decreases self@.jobs.len() - k,
        {
            proof {
                assert(self@.jobs.subrange(0, k as int + 1).drop_last() =~= self@.jobs.subrange(
                    0,
                    k as int,
                ));
                reveal(Seq::filter);
            }
            let admitted = match filter {
                StatusFilter::Any => true,
                StatusFilter::Only(s) => self.jobs[k].status == s,
            };
            if self.jobs[k].file_id == fid && admitted {
                r.push(self.jobs[k].duplicate());
            }
            k += 1;
        }
        assert(self@.jobs.subrange(0, self@.jobs.len() as int) =~= self@.jobs);
        r
    }

    /// The jobs in status `status`, in table order.
    pub fn get_jobs(&self, status: JobStatus) -> (r: Vec<Job>)
        ensures
            r@ == self@.jobs.filter(status_is(status)),
    {
        let mut r: Vec<Job> = Vec::new();
        let mut k: usize = 0;
        while k < self.jobs.len()
            invariant
                k <= self@.jobs.len(),
                r@ == self@.jobs.subrange(0, k as int).filter(status_is(status)),
            decreases self@.jobs.len() - k,
        {
            proof {
                assert(self@.jobs.subrange(0, k as int + 1).drop_last() =~= self@.jobs.subrange(
                    0,
                    k as int,
                ));
                reveal(Seq::filter);
            }
            if self.jobs[k].status == status {
                r.push(self.jobs[k].duplicate());
            }
            k += 1;
        }
        assert(self@.jobs.subrange(0, self@.jobs.len() as int) =~= self@.jobs);
        r
    }

    /// The number of pending jobs.
    pub fn get_queue_size(&self) -> (r: usize)
        ensures
            r == self@.jobs.filter(status_is(JobStatus::Pending)).len(),
    {
        self.get_jobs(JobStatus::Pending).len()
    }

    /// Sets every listed job to `status` and `error_message` in one step: either
    /// all listed jobs change or, when one is missing or may not move to
    /// `status`, none does.
    pub fn update_job_batch(
        &mut self,
        job_ids: &Vec<String>,
        status: JobStatus,
        error_message: Option<&str>,
    ) -> (r: Result<(), DbError>)
        requires
            old(self).wf(),
        ensures
            final(self).wf(),
            !all_listed_exist(old(self)@.jobs, job_ids@) ==> r == Err::<(), DbError>(
                DbError::NotFound,
            ),
            all_listed_exist(old(self)@.jobs, job_ids@) && !all_listed_may_move(
                old(self)@.jobs,
                job_ids@,
                status,
            ) ==> r == Err::<(), DbError>(DbError::InvalidTransition),
            r is Ok <==> all_listed_exist(old(self)@.jobs, job_ids@) && all_listed_may_move(
                old(self)@.jobs,
                job_ids@,
                status,
            ),
            r is Err ==> *final(self) == *old(self),
            r is Ok ==> {
                &&& batch_applied(
                    old(self)@.jobs,
                    final(self)@.jobs,
                    listed_in(job_ids@),
                    status,
                    str_message_view(error_message),
                )
                &&& final(self)@.files == old(self)@.files
                &&& final(self)@.embeddings == old(self)@.embeddings
                &&& final(self)@.events == old(self)@.events
                &&& final(self)@.next_event_id == old(self)@.next_event_id
            },
    {
        let ghost jobs0 = self@.jobs;
        // every listed job must exist
        let mut k: usize = 0;
        while k < job_ids.len()
            invariant
                self@.jobs == jobs0,
                *self == *old(self),
                store_wf(self@),
                k <= job_ids@.len(),
                forall|a: int| 0 <= a < k ==> has_job_id(jobs0, (#[trigger] job_ids@[a])@),
            decreases job_ids@.len() - k,
        {
            if self.find_job(&job_ids[k]).is_none() {
                return Err(DbError::NotFound);
            }
            k += 1;
        }
        // and every listed job must be allowed to move
        let mut k: usize = 0;
        while k < job_ids.len()
            invariant
                self@.jobs == jobs0,
                *self == *old(self),
                store_wf(self@),
                k <= job_ids@.len(),
                all_listed_exist(jobs0, job_ids@),
                forall|a: int|
                    0 <= a < k ==> can_transition(
                        jobs0[job_pos_by_id(jobs0, (#[trigger] job_ids@[a])@)].status,
                        status,
                    ),
            decreases job_ids@.len() - k,
        {
            let i = match self.find_job(&job_ids[k]) {
                Some(i) => i,
                None => {
                    return Err(DbError::NotFound);
                },
            };
            proof {
                assert(has_job_id(jobs0, job_ids@[k as int]@));
                let p = job_pos_by_id(jobs0, job_ids@[k as int]@);
                assert(jobs0[p].id@ == jobs0[i as int].id@);
                assert(p == i);
            }
            if !self.jobs[i].status.can_move_to(status) {
                return Err(DbError::InvalidTransition);
            }
            k += 1;
        }
        let msg: Option<String> = match error_message {
            Some(m) => Some(m.to_owned()),
            None => None,
        };
        let mut i: usize = 0;
        while i < self.jobs.len()
            invariant
                self@.jobs.len() == jobs0.len(),
                i <= jobs0.len(),
                self@.files == old(self)@.files,
                self@.embeddings == old(self)@.embeddings,
                self@.events == old(self)@.events,
                self@.next_event_id == old(self)@.next_event_id,
                message_view(msg) == str_message_view(error_message),
                forall|a: int| i <= a < jobs0.len() ==> self@.jobs[a] == jobs0[a],
                forall|a: int|
                    0 <= a < i ==> if listed(job_ids@, (#[trigger] jobs0[a]).id@) {
                        &&& self@.jobs[a].id == jobs0[a].id
                        &&& self@.jobs[a].file_id == jobs0[a].file_id
                        &&& self@.jobs[a].created_at == jobs0[a].created_at
                        &&& self@.jobs[a].status == status
                        &&& message_view(self@.jobs[a].error_message) == message_view(msg)
                    } else {
                        self@.jobs[a] == jobs0[a]
                    },
            decreases jobs0.len() - i,
        {
            let mut hit = false;
            let mut k: usize = 0;
            while k < job_ids.len()
                invariant
                    k <= job_ids@.len(),
                    i < self@.jobs.len(),
                    hit <==> exists|a: int| 0 <= a < k && (#[trigger] job_ids@[a])@ == self@.jobs[i as int].id@,
                decreases job_ids@.len() - k,
            {
                if job_ids[k] == self.jobs[i].id {
                    hit = true;
                }
                k += 1;
            }
            if hit {
                let cur = self.jobs[i].duplicate();
                let updated = Job {
                    id: cur.id,
                    file_id: cur.file_id,
                    status,
                    error_message: duplicate_message(&msg),
                    created_at: cur.created_at,
                };
                self.jobs.set(i, updated);
            }
            i += 1;
        }
        proof {
            let nj = self@.jobs;
            assert forall|a: int, b: int|
                0 <= a < nj.len() && 0 <= b < nj.len() && a != b implies (#[trigger] nj[a]).id@
                    != (#[trigger] nj[b]).id@ by {
                assert(nj[a].id == jobs0[a].id || nj[a] == jobs0[a]);
                assert(nj[b].id == jobs0[b].id || nj[b] == jobs0[b]);
            }
            assert forall|a: int| 0 <= a < nj.len() implies has_file_id(
                self@.files,
                (#[trigger] nj[a]).file_id@,
            ) by {
                assert(nj[a].file_id == jobs0[a].file_id || nj[a] == jobs0[a]);
            }
        }
        Ok(())
    }

    /// Sets one job to `status` and `error_message`; a batch of one.
    pub fn update_job(&mut self, job_id: &str, status: JobStatus, error_message: Option<&str>) -> (r:
        Result<(), DbError>)
        requires
            old(self).wf(),
        ensures
            final(self).wf(),
            !has_job_id(old(self)@.jobs, job_id@) ==> r == Err::<(), DbError>(DbError::NotFound),
            has_job_id(old(self)@.jobs, job_id@) ==> (r is Ok <==> can_transition(
                old(self)@.jobs[job_pos_by_id(old(self)@.jobs, job_id@)].status,
                status,
            )),
            r is Err ==> *final(self) == *old(self),
            r is Ok ==> {
                &&& batch_applied(
                    old(self)@.jobs,
                    final(self)@.jobs,
                    |id: Seq<char>| id == job_id@,
                    status,
                    str_message_view(error_message),
                )
                &&& final(self)@.files == old(self)@.files
                &&& final(self)@.embeddings == old(self)@.embeddings
                &&& final(self)@.events == old(self)@.events
                &&& final(self)@.next_event_id == old(self)@.next_event_id
            },
    {
        let ids = vec![job_id.to_owned()];
        let ghost jobs0 = self@.jobs;
        proof {
            assert forall|id: Seq<char>| listed(ids@, id) <==> id == job_id@ by {
                if id == job_id@ {
                    assert(ids@[0]@ == id);
                }
            }
            if has_job_id(jobs0, job_id@) {
                assert(all_listed_exist(jobs0, ids@));
            } else {
                assert(!has_job_id(jobs0, ids@[0]@));
            }
        }
        let r = self.update_job_batch(&ids, status, error_message);
        proof {
            if has_job_id(jobs0, job_id@) {
                assert(ids@[0]@ == job_id@);
                if can_transition(jobs0[job_pos_by_id(jobs0, job_id@)].status, status) {
                    assert(all_listed_may_move(jobs0, ids@, status));
                }
            }
        }
        r
    }
}

} // verus!