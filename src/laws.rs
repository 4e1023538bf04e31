use vstd::prelude::*;
use crate::batch::{
    batch_jobs_ok, batch_pos, committed, embedded_count, in_batch, outcome_message, outcome_status, outcomes_applied,
    stored_job, vectors_stored, JobOutcome,
};
use crate::ledger::{job_pos_by_id, message_view};
use crate::content::blake3_hex;
use crate::dispatch::{has_pending_job, needs_job, refreshed};
use crate::events::FileEventType;
use crate::records::JobStatus;
use crate::store::{
    deleted, embedding_not_of, file_pos_by_path, has_file_id, has_file_path, has_job_id, job_not_of,
    store_wf,
    StoreModel,
};

verus! {

/// Applying a create event for `path` with `content` leaves a record for the
/// path whose hash is the digest of exactly those bytes, with a pending job.
pub proof fn lemma_create_records_hash(
    m: StoreModel,
    n: StoreModel,
    path: Seq<char>,
    content: Seq<u8>,
    file_id: Seq<char>,
    job_id: Seq<char>,
    now: u64,
)
    requires
        store_wf(n),
        refreshed(m, n, FileEventType::Create, path, content, file_id, job_id, now),
    ensures
        has_file_path(n.files, path),
        n.files[file_pos_by_path(n.files, path)].hash@ == blake3_hex(content),
        n.files[file_pos_by_path(n.files, path)].size == content.len() as u64,
        has_pending_job(n.jobs, n.files[file_pos_by_path(n.files, path)].id@),
{
    let i = if has_file_path(m.files, path) {
        file_pos_by_path(m.files, path)
    } else {
        n.files.len() - 1
    };
    assert(n.files[i].path@ == path);
    let p = file_pos_by_path(n.files, path);
    assert(p == i);
    let j = n.jobs.len() - 1;
    assert(n.jobs[j].file_id@ == n.files[p].id@ && n.jobs[j].status == JobStatus::Pending);
}

/// Deleting a file leaves no record for its path and no job or embedding
/// that refers to the removed record.
pub proof fn lemma_delete_leaves_no_orphans(m: StoreModel, n: StoreModel, path: Seq<char>)
    requires
        store_wf(m),
        has_file_path(m.files, path),
        deleted(m, n, path),
    ensures
        !has_file_path(n.files, path),
        !has_file_id(n.files, m.files[file_pos_by_path(m.files, path)].id@),
        forall|j: int|
            0 <= j < n.jobs.len() ==> (#[trigger] n.jobs[j]).file_id@ != m.files[file_pos_by_path(
                m.files,
                path,
            )].id@,
        forall|e: int|
            0 <= e < n.embeddings.len() ==> (#[trigger] n.embeddings[e]).file_id@
                != m.files[file_pos_by_path(m.files, path)].id@,
{
    let i = file_pos_by_path(m.files, path);
    let fid = m.files[i].id@;
    assert forall|a: int| 0 <= a < n.files.len() implies (#[trigger] n.files[a]).path@ != path
        && n.files[a].id@ != fid by {
        let b = if a < i { a } else { a + 1 };
        assert(n.files[a] == m.files[b]);
    }
    assert forall|j: int| 0 <= j < n.jobs.len() implies (#[trigger] n.jobs[j]).file_id@ != fid by {
        m.jobs.lemma_filter_pred(job_not_of(fid), j);
    }
    assert forall|e: int| 0 <= e < n.embeddings.len() implies (#[trigger] n.embeddings[e]).file_id@
        != fid by {
        m.embeddings.lemma_filter_pred(embedding_not_of(fid), e);
    }
}

/// Committing a batch in which job `k` produced a vector leaves an embedding
/// of that vector for the file the job belongs to.
pub proof fn lemma_commit_stores_embedding(
    m: StoreModel,
    n: StoreModel,
    batch: Seq<crate::records::Job>,
    outcomes: Seq<JobOutcome>,
    ids: Seq<String>,
    now: u64,
    k: int,
)
    requires
        committed(m, n, batch, outcomes, ids, now),
        batch.len() == outcomes.len(),
        0 <= k < batch.len(),
        outcomes[k] is Embedded,
    ensures
        exists|e: int|
            0 <= e < n.embeddings.len() && (#[trigger] n.embeddings[e]).file_id@ == stored_job(
                m.jobs,
                batch[k].id@,
            ).file_id@ && n.embeddings[e].embedding@ == outcomes[k]->Embedded_0@,
{
    reveal(vectors_stored);
    let e = m.embeddings.len() + embedded_count(outcomes.subrange(0, k));
    assert(outcomes.subrange(0, k + 1).drop_last() =~= outcomes.subrange(0, k));
    lemma_count_grows(outcomes, k + 1);
    assert(n.embeddings[e as int].file_id@ == stored_job(m.jobs, batch[k].id@).file_id@);
}

/// A prefix never counts more vectors than the whole sequence.
proof fn lemma_count_grows(os: Seq<JobOutcome>, j: int)
    requires
        0 <= j <= os.len(),
    ensures
        embedded_count(os.subrange(0, j)) <= embedded_count(os),
    decreases os.len() - j,
{
    if j < os.len() {
        assert(os.subrange(0, j + 1).drop_last() =~= os.subrange(0, j));
        lemma_count_grows(os, j + 1);
    } else {
        assert(os.subrange(0, j) =~= os);
    }
}

/// A modify applied right after a create of the same path adds no job: the
/// create left a pending job for the file, so exactly the jobs there were
/// remain, and the file keeps its identifier.
pub proof fn lemma_modify_after_create_adds_no_job(
    m0: StoreModel,
    m1: StoreModel,
    m2: StoreModel,
    path: Seq<char>,
    c1: Seq<u8>,
    c2: Seq<u8>,
    f1: Seq<char>,
    j1: Seq<char>,
    f2: Seq<char>,
    j2: Seq<char>,
    t1: u64,
    t2: u64,
)
    requires
        store_wf(m1),
        store_wf(m2),
        refreshed(m0, m1, FileEventType::Create, path, c1, f1, j1, t1),
        refreshed(m1, m2, FileEventType::Modify, path, c2, f2, j2, t2),
    ensures
        !needs_job(m1, FileEventType::Modify, path),
        m2.jobs == m1.jobs,
        m2.files[file_pos_by_path(m2.files, path)].id == m1.files[file_pos_by_path(
            m1.files,
            path,
        )].id,
{
    lemma_create_records_hash(m0, m1, path, c1, f1, j1, t1);
    let i = file_pos_by_path(m1.files, path);
    assert(m2.files[i].path@ == path);
    assert(file_pos_by_path(m2.files, path) == i);
}

/// The whole round trip: a create of `path` with `content`, then a commit in
/// which the job it created produced vector `v`, leaves a record for `path`
/// whose hash is the digest of `content`, an embedding of `v` for that
/// record, and the job completed.
pub proof fn lemma_round_trip(
    m0: StoreModel,
    m1: StoreModel,
    m2: StoreModel,
    path: Seq<char>,
    content: Seq<u8>,
    file_id: Seq<char>,
    job_id: Seq<char>,
    t1: u64,
    batch: Seq<crate::records::Job>,
    outcomes: Seq<JobOutcome>,
    ids: Seq<String>,
    t2: u64,
    k: int,
)
    requires
        store_wf(m1),
        refreshed(m0, m1, FileEventType::Create, path, content, file_id, job_id, t1),
        batch_jobs_ok(m1, batch),
        committed(m1, m2, batch, outcomes, ids, t2),
        batch.len() == outcomes.len(),
        0 <= k < batch.len(),
        batch[k].id@ == job_id,
        outcomes[k] is Embedded,
    ensures
        has_file_path(m2.files, path),
        m2.files[file_pos_by_path(m2.files, path)].hash@ == blake3_hex(content),
        exists|e: int|
            0 <= e < m2.embeddings.len() && (#[trigger] m2.embeddings[e]).file_id@
                == m2.files[file_pos_by_path(m2.files, path)].id@ && m2.embeddings[e].embedding@
                == outcomes[k]->Embedded_0@,
        m2.jobs[m1.jobs.len() - 1].id@ == job_id,
        m2.jobs[m1.jobs.len() - 1].status == JobStatus::Completed,
{
    lemma_create_records_hash(m0, m1, path, content, file_id, job_id, t1);
    let p = file_pos_by_path(m1.files, path);
    let n = m1.jobs.len() - 1;
    assert(m1.jobs[n].id@ == job_id && m1.jobs[n].file_id@ == m1.files[p].id@);
    // the job the batch names is the one the create added
    assert(has_job_id(m1.jobs, batch[k].id@));
    let q = job_pos_by_id(m1.jobs, job_id);
    assert(m1.jobs[q].id@ == m1.jobs[n].id@);
    assert(q == n);
    lemma_commit_stores_embedding(m1, m2, batch, outcomes, ids, t2, k);
    lemma_job_takes_outcome(m1.jobs, m2.jobs, batch, outcomes, n, k);
}

/// Partial-failure isolation: each job of a committed batch ends with the
/// status and message of its own outcome, whatever the other jobs' outcomes
/// were; a vanished file's job fails with "file vanished" and a job whose
/// vector was stored is completed with no message.
pub proof fn lemma_job_takes_outcome(
    jobs: Seq<crate::records::Job>,
    new_jobs: Seq<crate::records::Job>,
    batch: Seq<crate::records::Job>,
    outcomes: Seq<JobOutcome>,
    i: int,
    k: int,
)
    requires
        outcomes_applied(jobs, new_jobs, batch, outcomes),
        0 <= i < jobs.len(),
        0 <= k < batch.len(),
        batch[k].id@ == jobs[i].id@,
        forall|a: int, b: int|
            0 <= a < b < batch.len() ==> (#[trigger] batch[a]).id@ != (#[trigger] batch[b]).id@,
    ensures
        new_jobs[i].id == jobs[i].id,
        new_jobs[i].status == outcome_status(outcomes[k]),
        message_view(new_jobs[i].error_message) == outcome_message(outcomes[k]),
{
    reveal(outcomes_applied);
    let id = jobs[i].id@;
    assert(in_batch(batch, id));
    let b = batch_pos(batch, id);
    if b < k {
        assert(batch[b].id@ != batch[k].id@);
    } else if k < b {
        assert(batch[k].id@ != batch[b].id@);
    }
    assert(in_batch(batch, jobs[i].id@));
}

} // verus!
