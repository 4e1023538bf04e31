use vstd::prelude::*;
use crate::embeddings::fresh_embedding;
use crate::content::fresh_id;
use crate::ledger::{job_pos_by_id, message_view, status_is};
use crate::records::{is_terminal, Embedding, Job, JobStatus};
use crate::store::{has_embedding_id, has_file_id, has_job_id, store_wf, Database, DbError, StoreModel};

verus! {

/// What processing one job of a batch came to.
#[derive(Debug, Clone)]
pub enum JobOutcome {
    /// The file was read and embedded; the serialized vector.
    Embedded(String),
    /// The file no longer exists.
    Vanished,
    /// Reading the file or computing its embedding failed; the error's message.
    Failed(String),
}

/// Classifies how processing one job ended, from what was observed: whether
/// the job's file record and the file itself were still there, and what
/// reading and embedding the file gave (a serialized vector or an error's
/// message). A missing record or file is a vanished file, whatever the result.
pub fn decide_outcome(record_found: bool, file_exists: bool, result: Result<String, String>) -> (r:
    JobOutcome)
    ensures
        !(record_found && file_exists) ==> r is Vanished,
        record_found && file_exists ==> match result {
            Ok(v) => r == JobOutcome::Embedded(v),
            Err(e) => r == JobOutcome::Failed(e),
        },
{
    if !(record_found && file_exists) {
        return JobOutcome::Vanished;
    }
    match result {
        Ok(v) => JobOutcome::Embedded(v),
        Err(e) => JobOutcome::Failed(e),
    }
}

/// The status a job ends in after its outcome.
pub open spec fn outcome_status(o: JobOutcome) -> JobStatus {
    match o {
        JobOutcome::Embedded(_) => JobStatus::Completed,
        _ => JobStatus::Failed,
    }
}

/// The error message a job keeps after its outcome.
pub open spec fn outcome_message(o: JobOutcome) -> Option<Seq<char>> {
    match o {
        JobOutcome::Embedded(_) => None,
        JobOutcome::Vanished => Some("file vanished"@),
        JobOutcome::Failed(m) => Some(m@),
    }
}

/// The stored job with identifier `id`.
pub open spec fn stored_job(jobs: Seq<Job>, id: Seq<char>) -> Job {
    jobs[job_pos_by_id(jobs, id)]
}

/// How many outcomes carry a vector.
pub open spec fn embedded_count(outcomes: Seq<JobOutcome>) -> nat
    decreases outcomes.len(),
{
    if outcomes.len() == 0 {
        0
    } else {
        embedded_count(outcomes.drop_last()) + if outcomes.last() is Embedded {
            1nat
        } else {
            0nat
        }
    }
}

pub open spec fn in_batch(batch: Seq<Job>, id: Seq<char>) -> bool {
    exists|k: int| 0 <= k < batch.len() && (#[trigger] batch[k]).id@ == id
}

/// The position of the job with identifier `id` in the batch.
pub open spec fn batch_pos(batch: Seq<Job>, id: Seq<char>) -> int {
    choose|k: int| 0 <= k < batch.len() && (#[trigger] batch[k]).id@ == id
}

/// The jobs of a batch are distinct, stored and not finished.
pub open spec fn batch_jobs_ok(m: StoreModel, batch: Seq<Job>) -> bool {
    &&& forall|k: int, l: int|
        0 <= k < l < batch.len() ==> (#[trigger] batch[k]).id@ != (#[trigger] batch[l]).id@
    &&& forall|k: int|
        0 <= k < batch.len() ==> has_job_id(m.jobs, (#[trigger] batch[k]).id@) && !is_terminal(
            stored_job(m.jobs, batch[k].id@).status,
        )
}

/// A batch can be committed: its jobs are distinct, stored and not finished,
/// and the identifiers for the new embeddings are distinct and unused.
pub open spec fn batch_valid(
    m: StoreModel,
    batch: Seq<Job>,
    outcomes: Seq<JobOutcome>,
    ids: Seq<String>,
) -> bool {
    &&& forall|k: int, l: int|
        0 <= k < l < batch.len() ==> (#[trigger] batch[k]).id@ != (#[trigger] batch[l]).id@
    &&& forall|k: int|
        0 <= k < batch.len() ==> has_job_id(m.jobs, (#[trigger] batch[k]).id@) && !is_terminal(
            stored_job(m.jobs, batch[k].id@).status,
        )
    &&& forall|k: int|
        0 <= k < batch.len() && (#[trigger] outcomes[k]) is Embedded ==> !has_embedding_id(
            m.embeddings,
            ids[k]@,
        )
    &&& forall|k: int, l: int|
        0 <= k < l < batch.len() && (#[trigger] outcomes[k]) is Embedded
            && (#[trigger] outcomes[l]) is Embedded ==> ids[k]@ != ids[l]@
}

/// Each batch job takes the status and message of its outcome; every other
/// job is untouched.
#[verifier::opaque]
pub open spec fn outcomes_applied(
    jobs: Seq<Job>,
    new_jobs: Seq<Job>,
    batch: Seq<Job>,
    outcomes: Seq<JobOutcome>,
) -> bool {
    &&& new_jobs.len() == jobs.len()
    &&& forall|i: int|
        0 <= i < jobs.len() ==> if in_batch(batch, (#[trigger] jobs[i]).id@) {
            let o = outcomes[batch_pos(batch, jobs[i].id@)];
            &&& new_jobs[i].id == jobs[i].id
            &&& new_jobs[i].file_id == jobs[i].file_id
            &&& new_jobs[i].created_at == jobs[i].created_at
            &&& new_jobs[i].status == outcome_status(o)
            &&& message_view(new_jobs[i].error_message) == outcome_message(o)
        } else {
            new_jobs[i] == jobs[i]
        }
}

/// One embedding is appended per vector, in batch order, for the file of its
/// job and under the identifier given for its position.
#[verifier::opaque]
pub open spec fn vectors_stored(
    m: StoreModel,
    new_embeddings: Seq<Embedding>,
    batch: Seq<Job>,
    outcomes: Seq<JobOutcome>,
    ids: Seq<String>,
    now: u64,
) -> bool {
    &&& new_embeddings.len() == m.embeddings.len() + embedded_count(outcomes)
    &&& new_embeddings.subrange(0, m.embeddings.len() as int) == m.embeddings
    &&& forall|k: int|
        0 <= k < batch.len() && (#[trigger] outcomes[k]) is Embedded ==> fresh_embedding(
            new_embeddings[m.embeddings.len() + embedded_count(outcomes.subrange(0, k)) as int],
            ids[k]@,
            stored_job(m.jobs, batch[k].id@).file_id@,
            outcomes[k]->Embedded_0@,
            now,
        )
}

/// The store after committing a batch: the jobs take their outcomes, the
/// vectors are stored, and nothing else changes.
pub open spec fn committed(
    m: StoreModel,
    n: StoreModel,
    batch: Seq<Job>,
    outcomes: Seq<JobOutcome>,
    ids: Seq<String>,
    now: u64,
) -> bool {
    &&& n.files == m.files
    &&& n.events == m.events
    &&& n.next_event_id == m.next_event_id
    &&& outcomes_applied(m.jobs, n.jobs, batch, outcomes)
    &&& vectors_stored(m, n.embeddings, batch, outcomes, ids, now)
}

impl Database {
    /// Up to `limit` pending jobs, oldest in table order first.
    pub fn pending_batch(&self, limit: usize) -> (r: Vec<Job>)
        ensures
            r@ == self@.jobs.filter(status_is(JobStatus::Pending)).take(
                if limit < self@.jobs.filter(status_is(JobStatus::Pending)).len() {
                    limit as int
                } else {
                    self@.jobs.filter(status_is(JobStatus::Pending)).len() as int
                },
            ),
    {
        let mut all = self.get_jobs(JobStatus::Pending);
        if limit < all.len() {
            all.truncate(limit);
        }
        assert(all@ =~= self@.jobs.filter(status_is(JobStatus::Pending)).take(all@.len() as int));
        all
    }

    /// Whether the batch can be committed as it stands.
    pub fn batch_is_valid(
        &self,
        batch: &Vec<Job>,
        outcomes: &Vec<JobOutcome>,
        embedding_ids: &Vec<String>,
    ) -> (r: bool)
        requires
            self.wf(),
            batch@.len() == outcomes@.len(),
            outcomes@.len() == embedding_ids@.len(),
        ensures
            r == batch_valid(self@, batch@, outcomes@, embedding_ids@),
    {
        let ghost m = self@;
        let mut k: usize = 0;
        while k < batch.len()
            invariant
                m == self@,
                store_wf(m),
                k <= batch@.len(),
                batch@.len() == outcomes@.len(),
                outcomes@.len() == embedding_ids@.len(),
                forall|a: int, b: int|
                    0 <= a < b < k ==> (#[trigger] batch@[a]).id@ != (#[trigger] batch@[b]).id@,
                forall|a: int|
                    0 <= a < k ==> has_job_id(m.jobs, (#[trigger] batch@[a]).id@) && !is_terminal(
                        stored_job(m.jobs, batch@[a].id@).status,
                    ),
                forall|a: int|
                    0 <= a < k && (#[trigger] outcomes@[a]) is Embedded ==> !has_embedding_id(
                        m.embeddings,
                        embedding_ids@[a]@,
                    ),
                forall|a: int, b: int|
                    0 <= a < b < k && (#[trigger] outcomes@[a]) is Embedded
                        && (#[trigger] outcomes@[b]) is Embedded ==> embedding_ids@[a]@
                        != embedding_ids@[b]@,
            decreases batch@.len() - k,
        {
            let mut l: usize = 0;
            while l < k
                invariant
                    l <= k < batch@.len(),
                    batch@.len() == outcomes@.len(),
                    outcomes@.len() == embedding_ids@.len(),
                    forall|a: int| 0 <= a < l ==> (#[trigger] batch@[a]).id@ != batch@[k as int].id@,
                    forall|a: int|
                        0 <= a < l && (#[trigger] outcomes@[a]) is Embedded
                            && outcomes@[k as int] is Embedded ==> embedding_ids@[a]@
                            != embedding_ids@[k as int]@,
                decreases k - l,
            {
                if batch[l].id == batch[k].id {
                    return false;
                }
                let both = match (&outcomes[l], &outcomes[k]) {
                    (JobOutcome::Embedded(_), JobOutcome::Embedded(_)) => true,
                    _ => false,
                };
                if both && embedding_ids[l] == embedding_ids[k] {
                    return false;
                }
                l += 1;
            }
            let i = match self.find_job(&batch[k].id) {
                Some(i) => i,
                None => {
                    return false;
                },
            };
            proof {
                let p = job_pos_by_id(m.jobs, batch@[k as int].id@);
                assert(m.jobs[p].id@ == m.jobs[i as int].id@);
                assert(p == i);
            }
            match self.jobs[i].status {
                JobStatus::Completed => {
                    return false;
                },
                JobStatus::Failed => {
                    return false;
                },
                _ => {},
            }
            match &outcomes[k] {
                JobOutcome::Embedded(_) => {
                    if self.find_embedding(&embedding_ids[k]) {
                        return false;
                    }
                },
                _ => {},
            }
            k += 1;
        }
        true
    }

    /// Appends one embedding per vector of a valid batch, in batch order, for
    /// the file of its job.
    fn store_vectors(
        &mut self,
        batch: &Vec<Job>,
        outcomes: &Vec<JobOutcome>,
        embedding_ids: &Vec<String>,
        now: u64,
    )
        requires
            old(self).wf(),
            batch@.len() == outcomes@.len(),
            outcomes@.len() == embedding_ids@.len(),
            batch_valid(old(self)@, batch@, outcomes@, embedding_ids@),
        ensures
            final(self).wf(),
            final(self)@.files == old(self)@.files,
            final(self)@.jobs == old(self)@.jobs,
            final(self)@.events == old(self)@.events,
            final(self)@.next_event_id == old(self)@.next_event_id,
            vectors_stored(
                old(self)@,
                final(self)@.embeddings,
                batch@,
                outcomes@,
                embedding_ids@,
                now,
            ),
    {
        let ghost m = self@;
        let ghost bs = batch@;
        let ghost os = outcomes@;
        let ghost ids = embedding_ids@;
        let ghost n0 = m.embeddings.len();
        let ghost mut src: Seq<int> = Seq::empty();
        proof {
            assert(self@.embeddings.subrange(0, n0 as int) =~= m.embeddings);
            assert(os.subrange(0, 0) =~= Seq::<JobOutcome>::empty());
        }
        let mut k: usize = 0;
        while k < batch.len()
            invariant
                k <= bs.len(),
                bs == batch@,
                os == outcomes@,
                ids == embedding_ids@,
                bs.len() == os.len(),
                os.len() == ids.len(),
                n0 == m.embeddings.len(),
                store_wf(self@),
                store_wf(m),
                batch_valid(m, bs, os, ids),
                self@.files == m.files,
                self@.jobs == m.jobs,
                self@.events == m.events,
                self@.next_event_id == m.next_event_id,
                self@.embeddings.len() == n0 + embedded_count(os.subrange(0, k as int)),
                self@.embeddings.subrange(0, n0 as int) == m.embeddings,
                src.len() == self@.embeddings.len() - n0,
                forall|t: int|
                    0 <= t < src.len() ==> 0 <= #[trigger] src[t] < k && os[src[t]] is Embedded
                        && self@.embeddings[n0 + t].id@ == ids[src[t]]@,
                forall|b: int|
                    0 <= b < k && (#[trigger] os[b]) is Embedded ==> fresh_embedding(
                        self@.embeddings[n0 + embedded_count(os.subrange(0, b)) as int],
                        ids[b]@,
                        stored_job(m.jobs, bs[b].id@).file_id@,
                        os[b]->Embedded_0@,
                        now,
                    ),
            decreases bs.len() - k,
        {
            proof {
                assert(os.subrange(0, k as int + 1).drop_last() =~= os.subrange(0, k as int));
            }
            let ghost before = self@.embeddings;
            match &outcomes[k] {
                JobOutcome::Embedded(v) => {
                    let i = match self.find_job(&batch[k].id) {
                        Some(i) => i,
                        None => {
                            proof {
                                assert(has_job_id(m.jobs, bs[k as int].id@));
                            }
                            return ;
                        },
                    };
                    proof {
                        let p = job_pos_by_id(m.jobs, bs[k as int].id@);
                        assert(m.jobs[p].id@ == m.jobs[i as int].id@);
                        assert(p == i);
                        assert(has_file_id(m.files, m.jobs[i as int].file_id@));
                        assert(!has_embedding_id(before, ids[k as int]@)) by {
                            if has_embedding_id(before, ids[k as int]@) {
                                let a = choose|a: int|
                                    0 <= a < before.len() && (#[trigger] before[a]).id@
                                        == ids[k as int]@;
                                if a < n0 {
                                    assert(before.subrange(0, n0 as int)[a] == before[a]);
                                    assert(m.embeddings[a] == before[a]);
                                } else {
                                    let b = src[a - n0];
                                    assert(ids[b]@ != ids[k as int]@);
                                }
                            }
                        }
                    }
                    let fid = self.jobs[i].file_id.clone();
                    let res = self.insert_embedding_with_id(
                        embedding_ids[k].clone(),
                        fid.as_str(),
                        v.as_str(),
                        now,
                    );
                    proof {
                        assert(res is Ok);
                        let ne = self@.embeddings;
                        src = src.push(k as int);
                        assert(ne.drop_last() == before);
                        assert forall|t: int| 0 <= t < ne.len() - 1 implies ne[t] == before[t] by {
                            assert(ne.drop_last()[t] == ne[t]);
                        }
                        assert(ne.subrange(0, n0 as int) =~= before.subrange(0, n0 as int));
                        assert forall|b: int|
                            0 <= b < k + 1 && (#[trigger] os[b]) is Embedded implies fresh_embedding(
                            ne[n0 + embedded_count(os.subrange(0, b)) as int],
                            ids[b]@,
                            stored_job(m.jobs, bs[b].id@).file_id@,
                            os[b]->Embedded_0@,
                            now,
                        ) by {
                            if b < k {
                                lemma_embedded_count_prefix(os, b, k as int);
                            }
                        }
                    }
                },
                _ => {},
            }
            k += 1;
        }
        proof {
            assert(os.subrange(0, os.len() as int) =~= os);
            reveal(vectors_stored);
        }
    }

    /// Gives each stored job of a valid batch the status and message of its
    /// outcome, leaving every other job as it was.
    fn apply_outcomes(&mut self, batch: &Vec<Job>, outcomes: &Vec<JobOutcome>)
        requires
            old(self).wf(),
            batch@.len() == outcomes@.len(),
            forall|k: int, l: int|
                0 <= k < l < batch@.len() ==> (#[trigger] batch@[k]).id@ != (#[trigger] batch@[l]).id@,
        ensures
            final(self).wf(),
            final(self)@.files == old(self)@.files,
            final(self)@.embeddings == old(self)@.embeddings,
            final(self)@.events == old(self)@.events,
            final(self)@.next_event_id == old(self)@.next_event_id,
            outcomes_applied(old(self)@.jobs, final(self)@.jobs, batch@, outcomes@),
    {
        let ghost jobs0 = self@.jobs;
        let ghost bs = batch@;
        let ghost os = outcomes@;
        let mut i: usize = 0;
        while i < self.jobs.len()
            invariant
                bs == batch@,
                os == outcomes@,
                bs.len() == os.len(),
                forall|k: int, l: int|
                    0 <= k < l < bs.len() ==> (#[trigger] bs[k]).id@ != (#[trigger] bs[l]).id@,
                self@.jobs.len() == jobs0.len(),
                i <= jobs0.len(),
                self@.files == old(self)@.files,
                self@.embeddings == old(self)@.embeddings,
                self@.events == old(self)@.events,
                self@.next_event_id == old(self)@.next_event_id,
                forall|a: int| i <= a < jobs0.len() ==> self@.jobs[a] == jobs0[a],
                forall|a: int|
                    0 <= a < i ==> if in_batch(bs, (#[trigger] jobs0[a]).id@) {
                        let o = os[batch_pos(bs, jobs0[a].id@)];
                        &&& self@.jobs[a].id == jobs0[a].id
                        &&& self@.jobs[a].file_id == jobs0[a].file_id
                        &&& self@.jobs[a].created_at == jobs0[a].created_at
                        &&& self@.jobs[a].status == outcome_status(o)
                        &&& message_view(self@.jobs[a].error_message) == outcome_message(o)
                    } else {
                        self@.jobs[a] == jobs0[a]
                    },
            decreases jobs0.len() - i,
        {
            let mut hit: Option<usize> = None;
            let mut k: usize = 0;
            while k < batch.len()
                invariant
                    k <= bs.len(),
                    bs == batch@,
                    i < self@.jobs.len(),
                    self@.jobs[i as int] == jobs0[i as int],
                    hit matches Some(p) ==> p < k && bs[p as int].id@ == jobs0[i as int].id@,
                    hit is None ==> forall|a: int|
                        0 <= a < k ==> (#[trigger] bs[a]).id@ != jobs0[i as int].id@,
                decreases bs.len() - k,
            {
                if batch[k].id == self.jobs[i].id {
                    hit = Some(k);
                }
                k += 1;
            }
            match hit {
                Some(p) => {
                    proof {
                        let id = jobs0[i as int].id@;
                        assert(in_batch(bs, id));
                        let q = batch_pos(bs, id);
                        if q < p as int {
                            assert(bs[q].id@ != bs[p as int].id@);
                        } else if p < q {
                            assert(bs[p as int].id@ != bs[q].id@);
                        }
                    }
                    let cur = self.jobs[i].duplicate();
                    let (status, msg) = match &outcomes[p] {
                        JobOutcome::Embedded(_) => (JobStatus::Completed, None),
                        JobOutcome::Vanished => (JobStatus::Failed, Some("file vanished".to_owned())),
                        JobOutcome::Failed(m) => (JobStatus::Failed, Some(m.clone())),
                    };
                    self.jobs.set(
                        i,
                        Job {
                            id: cur.id,
                            file_id: cur.file_id,
                            status,
                            error_message: msg,
                            created_at: cur.created_at,
                        },
                    );
                },
                None => {},
            }
            i += 1;
        }
        proof {
            let nj = self@.jobs;
            assert forall|a: int, b: int|
                0 <= a < nj.len() && 0 <= b < nj.len() && a != b implies (#[trigger] nj[a]).id@
                    != (#[trigger] nj[b]).id@ by {
                assert(nj[a].id == jobs0[a].id);
                assert(nj[b].id == jobs0[b].id);
            }
            assert forall|a: int| 0 <= a < nj.len() implies has_file_id(
                self@.files,
                (#[trigger] nj[a]).file_id@,
            ) by {
                assert(nj[a].file_id == jobs0[a].file_id);
            }
            reveal(outcomes_applied);
        }
    }

    /// Commits the outcome of a processed batch in one step, with the
    /// identifiers the new embeddings take: a vector is stored and its job
    /// completed; a vanished file fails its job with "file vanished"; any other
    /// failure fails its job with that failure's message. An invalid batch
    /// changes nothing.
    pub fn commit_batch_with_ids(
        &mut self,
        batch: &Vec<Job>,
        outcomes: &Vec<JobOutcome>,
        embedding_ids: &Vec<String>,
        now: u64,
    ) -> (r: Result<(), DbError>)
        requires
            old(self).wf(),
            batch@.len() == outcomes@.len(),
            outcomes@.len() == embedding_ids@.len(),
        ensures
            final(self).wf(),
            r is Ok <==> batch_valid(old(self)@, batch@, outcomes@, embedding_ids@),
            r is Err ==> r == Err::<(), DbError>(DbError::InvalidBatch) && *final(self) == *old(
                self,
            ),
            r is Ok ==> committed(
                old(self)@,
                final(self)@,
                batch@,
                outcomes@,
                embedding_ids@,
                now,
            ),
    {
        if !self.batch_is_valid(batch, outcomes, embedding_ids) {
            return Err(DbError::InvalidBatch);
        }
        self.store_vectors(batch, outcomes, embedding_ids, now);
        self.apply_outcomes(batch, outcomes);
        Ok(())
    }

    /// Commits the outcome of a processed batch, as `commit_batch_with_ids`
    /// describes, giving each new embedding a fresh random identifier.
    pub fn commit_batch(&mut self, batch: &Vec<Job>, outcomes: &Vec<JobOutcome>, now: u64) -> (r:
        Result<(), DbError>)
        requires
            old(self).wf(),
            batch@.len() == outcomes@.len(),
        ensures
            final(self).wf(),
            r is Err ==> r == Err::<(), DbError>(DbError::InvalidBatch) && *final(self) == *old(
                self,
            ),
            r is Ok ==> batch_jobs_ok(old(self)@, batch@),
            !batch_jobs_ok(old(self)@, batch@) ==> r is Err,
            batch_jobs_ok(old(self)@, batch@) && embedded_count(outcomes@) == 0 ==> r is Ok,
            r is Ok ==> exists|ids: Seq<String>|
                ids.len() == batch@.len() && committed(
                    old(self)@,
                    final(self)@,
                    batch@,
                    outcomes@,
                    ids,
                    now,
                ),
    {
        let mut ids: Vec<String> = Vec::new();
        let mut k: usize = 0;
        while k < batch.len()
            invariant
                k <= batch@.len(),
                ids@.len() == k,
            decreases batch@.len() - k,
        {
            ids.push(fresh_id());
            k += 1;
        }
        let ghost m = self@;
        proof {
            if embedded_count(outcomes@) == 0 {
                lemma_no_vectors(outcomes@);
            }
        }
        let r = self.commit_batch_with_ids(batch, outcomes, &ids, now);
        proof {
            if r is Ok {
                assert(ids@.len() == batch@.len());
            }
        }
        r
    }
}

/// An outcome sequence that counts no vector has none.
proof fn lemma_no_vectors(os: Seq<JobOutcome>)
    requires
        embedded_count(os) == 0,
    ensures
        forall|k: int| 0 <= k < os.len() ==> !(#[trigger] os[k] is Embedded),
    decreases os.len(),
{
    if os.len() > 0 {
        lemma_no_vectors(os.drop_last());
        assert forall|k: int| 0 <= k < os.len() implies !(#[trigger] os[k] is Embedded) by {
            if k < os.len() - 1 {
                assert(os.drop_last()[k] == os[k]);
            }
        }
    }
}

/// The vectors counted before position `b` are counted before any later `k`,
/// and one more when position `b` carries one.
proof fn lemma_embedded_count_prefix(os: Seq<JobOutcome>, b: int, k: int)
    requires
        0 <= b < k <= os.len(),
    ensures
        embedded_count(os.subrange(0, b)) + (if os[b] is Embedded { 1int } else { 0int })
            <= embedded_count(os.subrange(0, k)),
    decreases k - b,
{
    assert(os.subrange(0, k).drop_last() =~= os.subrange(0, k - 1));
    if b < k - 1 {
        lemma_embedded_count_prefix(os, b, k - 1);
    } else {
        assert(os.subrange(0, k).last() == os[b]);
    }
}

} // verus!
