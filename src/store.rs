use vstd::prelude::*;
use crate::events::ChangeEvent;
use crate::content::fresh_id;
use crate::records::{Embedding, File, Job};

verus! {

/// Why a store operation was refused. A refused operation leaves the store as it was.
#[derive(Debug, Clone, Copy, PartialEq, Eq, Structural)]
pub enum DbError {
    /// No record has the requested key.
    NotFound,
    /// A new record's identifier is already taken.
    DuplicateId,
    /// A record would refer to a file that does not exist.
    MissingFile,
    /// A job would move backwards or out of a terminal status.
    InvalidTransition,
    /// The event log has used up its identifiers.
    LogFull,
    /// A batch lists a job twice, a missing or finished job, or an embedding
    /// identifier that is taken.
    InvalidBatch,
}

/// The four tables of the store and the next event identifier.
pub struct StoreModel {
    pub files: Seq<File>,
    pub jobs: Seq<Job>,
    pub embeddings: Seq<Embedding>,
    pub events: Seq<ChangeEvent>,
    pub next_event_id: nat,
}

/// The single-writer store of file records, jobs, embeddings and change events.
pub struct Database {
    pub(crate) files: Vec<File>,
    pub(crate) jobs: Vec<Job>,
    pub(crate) embeddings: Vec<Embedding>,
    pub(crate) events: Vec<ChangeEvent>,
    pub(crate) next_event_id: u64,
}

impl View for Database {
    type V = StoreModel;

    open(crate) spec fn view(&self) -> StoreModel {
        StoreModel {
            files: self.files@,
            jobs: self.jobs@,
            embeddings: self.embeddings@,
            events: self.events@,
            next_event_id: self.next_event_id as nat,
        }
    }
}

pub open spec fn has_file_id(files: Seq<File>, id: Seq<char>) -> bool {
    exists|i: int| 0 <= i < files.len() && (#[trigger] files[i]).id@ == id
}

pub open spec fn has_file_path(files: Seq<File>, path: Seq<char>) -> bool {
    exists|i: int| 0 <= i < files.len() && (#[trigger] files[i]).path@ == path
}

/// The position of the record for `path`; meaningful when there is one.
pub open spec fn file_pos_by_path(files: Seq<File>, path: Seq<char>) -> int {
    choose|i: int| 0 <= i < files.len() && (#[trigger] files[i]).path@ == path
}

/// The position of the record with identifier `id`; meaningful when there is one.
pub open spec fn file_pos_by_id(files: Seq<File>, id: Seq<char>) -> int {
    choose|i: int| 0 <= i < files.len() && (#[trigger] files[i]).id@ == id
}

pub open spec fn has_job_id(jobs: Seq<Job>, id: Seq<char>) -> bool {
    exists|i: int| 0 <= i < jobs.len() && (#[trigger] jobs[i]).id@ == id
}

pub open spec fn has_embedding_id(embeddings: Seq<Embedding>, id: Seq<char>) -> bool {
    exists|i: int| 0 <= i < embeddings.len() && (#[trigger] embeddings[i]).id@ == id
}

/// At most one record per identifier and at most one per path.
pub open spec fn files_wf(files: Seq<File>) -> bool {
    forall|i: int, j: int|
        0 <= i < files.len() && 0 <= j < files.len() && i != j ==> (#[trigger] files[i]).id@
            != (#[trigger] files[j]).id@ && files[i].path@ != files[j].path@
}

/// Job identifiers are unique and every job belongs to an existing file.
pub open spec fn jobs_wf(jobs: Seq<Job>, files: Seq<File>) -> bool {
    &&& forall|i: int, j: int|
        0 <= i < jobs.len() && 0 <= j < jobs.len() && i != j ==> (#[trigger] jobs[i]).id@
            != (#[trigger] jobs[j]).id@
    &&& forall|i: int| 0 <= i < jobs.len() ==> has_file_id(files, (#[trigger] jobs[i]).file_id@)
}

/// Embedding identifiers are unique and every embedding belongs to an existing file.
pub open spec fn embeddings_wf(embeddings: Seq<Embedding>, files: Seq<File>) -> bool {
    &&& forall|i: int, j: int|
        0 <= i < embeddings.len() && 0 <= j < embeddings.len() && i != j
            ==> (#[trigger] embeddings[i]).id@ != (#[trigger] embeddings[j]).id@
    &&& forall|i: int|
        0 <= i < embeddings.len() ==> has_file_id(files, (#[trigger] embeddings[i]).file_id@)
}

/// Event identifiers increase along the log and stay below the next one to
/// hand out, and enqueue times never go backwards along it.
pub open spec fn events_wf(events: Seq<ChangeEvent>, next_event_id: nat) -> bool {
    &&& forall|i: int, j: int|
        0 <= i < j < events.len() ==> (#[trigger] events[i]).id < (#[trigger] events[j]).id
            && events[i].created_at <= events[j].created_at
    &&& forall|i: int| 0 <= i < events.len() ==> (#[trigger] events[i]).id < next_event_id
}

pub open spec fn store_wf(m: StoreModel) -> bool {
    &&& files_wf(m.files)
    &&& jobs_wf(m.jobs, m.files)
    &&& embeddings_wf(m.embeddings, m.files)
    &&& events_wf(m.events, m.next_event_id)
}

/// A file record written for `path` with the given content attributes.
pub open spec fn file_holds(
    f: File,
    path: Seq<char>,
    file_type: Seq<char>,
    hash: Seq<char>,
    size: u64,
) -> bool {
    &&& f.path@ == path
    &&& f.file_type@ == file_type
    &&& f.hash@ == hash
    &&& f.size == size
}

/// What an upsert leaves in the files table, given the identifier it would use
/// for a new record: the record for `path` is refreshed in place, keeping its
/// identifier and creation time, or a new record is appended.
pub open spec fn upserted(
    files: Seq<File>,
    new_files: Seq<File>,
    id: Seq<char>,
    path: Seq<char>,
    file_type: Seq<char>,
    hash: Seq<char>,
    size: u64,
    now: u64,
) -> bool {
    if has_file_path(files, path) {
        let i = file_pos_by_path(files, path);
        &&& new_files.len() == files.len()
        &&& forall|j: int| 0 <= j < files.len() && j != i ==> new_files[j] == files[j]
        &&& new_files[i].id == files[i].id
        &&& new_files[i].created_at == files[i].created_at
        &&& new_files[i].updated_at == now
        &&& file_holds(new_files[i], path, file_type, hash, size)
    } else {
        &&& new_files.len() == files.len() + 1
        &&& new_files.drop_last() == files
        &&& new_files.last().id@ == id
        &&& new_files.last().created_at == now
        &&& new_files.last().updated_at == now
        &&& file_holds(new_files.last(), path, file_type, hash, size)
    }
}

/// What deleting the record for `path` leaves: the record is gone, and so is
/// every job and embedding of it.
pub open spec fn deleted(m: StoreModel, n: StoreModel, path: Seq<char>) -> bool {
    let i = file_pos_by_path(m.files, path);
    let fid = m.files[i].id@;
    &&& n.files == m.files.remove(i)
    &&& n.jobs == m.jobs.filter(job_not_of(fid))
    &&& n.embeddings == m.embeddings.filter(embedding_not_of(fid))
    &&& n.events == m.events
    &&& n.next_event_id == m.next_event_id
}

pub open spec fn job_not_of(file_id: Seq<char>) -> spec_fn(Job) -> bool {
    |j: Job| j.file_id@ != file_id
}

pub open spec fn embedding_not_of(file_id: Seq<char>) -> spec_fn(Embedding) -> bool {
    |e: Embedding| e.file_id@ != file_id
}

impl Database {
    pub open spec fn wf(&self) -> bool {
        store_wf(self@)
    }

    /// An empty store.
    pub fn new() -> (r: Database)
        ensures
            r.wf(),
            r@.files.len() == 0,
            r@.jobs.len() == 0,
            r@.embeddings.len() == 0,
            r@.events.len() == 0,
            r@.next_event_id == 0,
    {
        Database {
            files: Vec::new(),
            jobs: Vec::new(),
            embeddings: Vec::new(),
            events: Vec::new(),
            next_event_id: 0,
        }
    }

    /// A copy of the files table.
    pub fn files(&self) -> (r: Vec<File>)
        ensures
            r@ == self@.files,
    {
        let mut r: Vec<File> = Vec::new();
        let mut i: usize = 0;
        while i < self.files.len()
            invariant
                i <= self.files@.len(),
                r@ == self.files@.subrange(0, i as int),
            decreases self.files@.len() - i,
        {
            r.push(self.files[i].duplicate());
            i += 1;
            assert(r@ =~= self.files@.subrange(0, i as int));
        }
        assert(r@ =~= self.files@);
        r
    }

    pub(crate) fn find_file_by_id(&self, id: &String) -> (r: Option<usize>)
        ensures
            r matches Some(i) ==> i < self@.files.len() && self@.files[i as int].id@ == id@,
            r is None ==> !has_file_id(self@.files, id@),
    {
        let mut i: usize = 0;
        while i < self.files.len()
            invariant
                i <= self.files@.len(),
                forall|j: int| 0 <= j < i ==> (#[trigger] self.files@[j]).id@ != id@,
            decreases self.files@.len() - i,
        {
            if self.files[i].id == *id {
                return Some(i);
            }
            i += 1;
        }
        None
    }

    pub(crate) fn find_file_by_path(&self, path: &String) -> (r: Option<usize>)
        ensures
            r matches Some(i) ==> i < self@.files.len() && self@.files[i as int].path@ == path@,
            r is None ==> !has_file_path(self@.files, path@),
    {
        let mut i: usize = 0;
        while i < self.files.len()
            invariant
                i <= self.files@.len(),
                forall|j: int| 0 <= j < i ==> (#[trigger] self.files@[j]).path@ != path@,
            decreases self.files@.len() - i,
        {
            if self.files[i].path == *path {
                return Some(i);
            }
            i += 1;
        }
        None
    }

    /// The file record with identifier `id`.
    pub fn get_file(&self, id: &str) -> (r: Result<File, DbError>)
        requires
            self.wf(),
        ensures
            r is Ok <==> has_file_id(self@.files, id@),
            r matches Ok(f) ==> f == self@.files[file_pos_by_id(self@.files, id@)],
            r is Err ==> r == Err::<File, DbError>(DbError::NotFound),
    {
        let key = id.to_owned();
        match self.find_file_by_id(&key) {
            Some(i) => {
                proof {
                    let k = file_pos_by_id(self@.files, id@);
                    assert(self@.files[i as int].id@ == id@);
                    assert(k == i);
                }
                Ok(self.files[i].duplicate())
            },
            None => Err(DbError::NotFound),
        }
    }

    /// Records the content attributes of `path`. An existing record keeps its
    /// identifier and creation time; a new one takes `id`, which must be unused.
    pub fn upsert_file_with_id(
        &mut self,
        id: String,
        path: &str,
        file_type: &str,
        hash: &str,
        size: u64,
        now: u64,
    ) -> (r: Result<File, DbError>)
        requires
            old(self).wf(),
        ensures
            final(self).wf(),
            r is Err <==> !has_file_path(old(self)@.files, path@) && has_file_id(
                old(self)@.files,
                id@,
            ),
            r is Err ==> r == Err::<File, DbError>(DbError::DuplicateId) && *final(self)
                == *old(self),
            r is Ok ==> {
                &&& upserted(
                    old(self)@.files,
                    final(self)@.files,
                    id@,
                    path@,
                    file_type@,
                    hash@,
                    size,
                    now,
                )
                &&& final(self)@.jobs == old(self)@.jobs
                &&& final(self)@.embeddings == old(self)@.embeddings
                &&& final(self)@.events == old(self)@.events
                &&& final(self)@.next_event_id == old(self)@.next_event_id
                &&& r->Ok_0 == final(self)@.files[file_pos_by_path(final(self)@.files, path@)]
                &&& has_file_path(final(self)@.files, path@)
            },
    {
        let key = path.to_owned();
        match self.find_file_by_path(&key) {
            Some(i) => {
                let ghost old_files = self@.files;
                proof {
                    let k = file_pos_by_path(old_files, path@);
                    assert(old_files[i as int].path@ == path@);
                    assert(k == i);
                }
                let old_rec = self.files[i].duplicate();
                let rec = File {
                    id: old_rec.id,
                    path: key,
                    file_type: file_type.to_owned(),
                    hash: hash.to_owned(),
                    size,
                    created_at: old_rec.created_at,
                    updated_at: now,
                };
                let out = rec.duplicate();
                self.files.set(i, rec);
                proof {
                    let nf = self@.files;
                    assert(nf[i as int].path@ == path@);
                    assert(file_pos_by_path(nf, path@) == i);
                    assert forall|a: int| 0 <= a < nf.len() implies has_file_id(
                        nf,
                        (#[trigger] old_files[a]).id@,
                    ) by {
                        assert(nf[a].id@ == old_files[a].id@);
                    }
                    assert forall|a: int| 0 <= a < self@.jobs.len() implies has_file_id(
                        nf,
                        (#[trigger] self@.jobs[a]).file_id@,
                    ) by {
                        let b = choose|b: int|
                            0 <= b < old_files.len() && (#[trigger] old_files[b]).id@
                                == self@.jobs[a].file_id@;
                        assert(nf[b].id@ == old_files[b].id@);
                    }
                    assert forall|a: int| 0 <= a < self@.embeddings.len() implies has_file_id(
                        nf,
                        (#[trigger] self@.embeddings[a]).file_id@,
                    ) by {
                        let b = choose|b: int|
                            0 <= b < old_files.len() && (#[trigger] old_files[b]).id@
                                == self@.embeddings[a].file_id@;
                        assert(nf[b].id@ == old_files[b].id@);
                    }
                }
                Ok(out)
            },
            None => {
                if self.find_file_by_id(&id).is_some() {
                    return Err(DbError::DuplicateId);
                }
                let ghost old_files = self@.files;
                let rec = File {
                    id,
                    path: key,
                    file_type: file_type.to_owned(),
                    hash: hash.to_owned(),
                    size,
                    created_at: now,
                    updated_at: now,
                };
                let out = rec.duplicate();
                self.files.push(rec);
                proof {
                    let nf = self@.files;
                    assert(nf.drop_last() =~= old_files);
                    let last = nf.len() - 1;
                    assert(nf[last].path@ == path@);
                    assert(file_pos_by_path(nf, path@) == last);
                    assert forall|a: int| 0 <= a < self@.jobs.len() implies has_file_id(
                        nf,
                        (#[trigger] self@.jobs[a]).file_id@,
                    ) by {
                        let b = choose|b: int|
                            0 <= b < old_files.len() && (#[trigger] old_files[b]).id@
                                == self@.jobs[a].file_id@;
                        assert(nf[b] == old_files[b]);
                    }
                    assert forall|a: int| 0 <= a < self@.embeddings.len() implies has_file_id(
                        nf,
                        (#[trigger] self@.embeddings[a]).file_id@,
                    ) by {
                        let b = choose|b: int|
                            0 <= b < old_files.len() && (#[trigger] old_files[b]).id@
                                == self@.embeddings[a].file_id@;
                        assert(nf[b] == old_files[b]);
                    }
                }
                Ok(out)
            },
        }
    }

    /// Records the content attributes of `path`, giving a new record a fresh
    /// random identifier. Whatever identifier came up, the outcome is the one
    /// `upsert_file_with_id` describes for it.
    pub fn upsert_file(&mut self, path: &str, file_type: &str, hash: &str, size: u64, now: u64) -> (r:
        Result<File, DbError>)
        requires
            old(self).wf(),
        ensures
            final(self).wf(),
            has_file_path(old(self)@.files, path@) ==> r is Ok,
            r is Err ==> r == Err::<File, DbError>(DbError::DuplicateId) && *final(self)
                == *old(self),
            r is Ok ==> {
                &&& exists|id: Seq<char>|
                    upserted(
                        old(self)@.files,
                        final(self)@.files,
                        id,
                        path@,
                        file_type@,
                        hash@,
                        size,
                        now,
                    )
                &&& final(self)@.jobs == old(self)@.jobs
                &&& final(self)@.embeddings == old(self)@.embeddings
                &&& final(self)@.events == old(self)@.events
                &&& final(self)@.next_event_id == old(self)@.next_event_id
                &&& r->Ok_0 == final(self)@.files[file_pos_by_path(final(self)@.files, path@)]
                &&& has_file_path(final(self)@.files, path@)
            },
    {
        let id = fresh_id();
        self.upsert_file_with_id(id, path, file_type, hash, size, now)
    }

    /// Removes the record for `path` together with every job and embedding of
    /// that file, and returns the removed record.
    pub fn delete_file(&mut self, path: &str) -> (r: Result<File, DbError>)
        requires
            old(self).wf(),
        ensures
            final(self).wf(),
            r is Ok <==> has_file_path(old(self)@.files, path@),
            r is Err ==> r == Err::<File, DbError>(DbError::NotFound) && *final(self) == *old(
                self,
            ),
            r matches Ok(f) ==> f == old(self)@.files[file_pos_by_path(old(self)@.files, path@)]
                && deleted(old(self)@, final(self)@, path@),
    {
        let key = path.to_owned();
        let i = match self.find_file_by_path(&key) {
            Some(i) => i,
            None => {
                return Err(DbError::NotFound);
            },
        };
        let ghost old_self = self@;
        proof {
            assert(old_self.files[i as int].path@ == path@);
            assert(file_pos_by_path(old_self.files, path@) == i);
        }
        let removed = self.files.remove(i);
        let fid = removed.id.clone();
        let ghost nf = self@.files;
        // a remaining record's identifier differs from the removed one
        proof {
            assert forall|a: int| 0 <= a < old_self.files.len() && a != i implies has_file_id(
                nf,
                (#[trigger] old_self.files[a]).id@,
            ) by {
                if a < i {
                    assert(nf[a] == old_self.files[a]);
                } else {
                    assert(nf[a - 1] == old_self.files[a]);
                }
            }
        }
        let mut kept_jobs: Vec<Job> = Vec::new();
        let mut k: usize = 0;
        while k < self.jobs.len()
            invariant
                self@.files == nf,
                self@.jobs == old_self.jobs,
                0 <= i < old_self.files.len(),
                fid@ == old_self.files[i as int].id@,
                store_wf(old_self),
                k <= old_self.jobs.len(),
                kept_jobs@ == old_self.jobs.subrange(0, k as int).filter(job_not_of(fid@)),
                forall|a: int|
                    0 <= a < kept_jobs@.len() ==> exists|b: int|
                        0 <= b < k && (#[trigger] kept_jobs@[a]) == old_self.jobs[b],
                forall|a: int, b: int|
                    0 <= a < kept_jobs@.len() && 0 <= b < kept_jobs@.len() && a != b ==> (
                    #[trigger] kept_jobs@[a]).id@ != (#[trigger] kept_jobs@[b]).id@,
                forall|a: int|
                    0 <= a < kept_jobs@.len() ==> has_file_id(nf, (#[trigger] kept_jobs@[a]).file_id@),
                forall|a: int|
                    0 <= a < old_self.files.len() && a != i ==> has_file_id(
                        nf,
                        (#[trigger] old_self.files[a]).id@,
                    ),
            decreases old_self.jobs.len() - k,
        {
            let ghost before = kept_jobs@;
            proof {
                assert(old_self.jobs.subrange(0, k as int + 1).drop_last() =~= old_self.jobs.subrange(0, k as int));
                reveal(Seq::filter);
            }
            if self.jobs[k].file_id != fid {
                let job = self.jobs[k].duplicate();
                proof {
                    let j = old_self.jobs[k as int];
                    let b = choose|b: int|
                        0 <= b < old_self.files.len() && (#[trigger] old_self.files[b]).id@
                            == j.file_id@;
                    assert(b != i);
                    assert forall|a: int| 0 <= a < before.len() implies (#[trigger] before[a]).id@ != j.id@ by {
                        let c = choose|c: int| 0 <= c < k && before[a] == old_self.jobs[c];
                        assert(old_self.jobs[c] == before[a]);
                    }
                }
                kept_jobs.push(job);
                proof {
                    assert forall|a: int|
                        0 <= a < kept_jobs@.len() implies exists|b: int|
                            0 <= b < k + 1 && (#[trigger] kept_jobs@[a]) == old_self.jobs[b] by {
                        if a < before.len() {
                            assert(kept_jobs@[a] == before[a]);
                        } else {
                            assert(kept_jobs@[a] == old_self.jobs[k as int]);
                        }
                    }
                }
            }
            k += 1;
        }
        proof {
            assert(old_self.jobs.subrange(0, old_self.jobs.len() as int) =~= old_self.jobs);
        }
        let mut kept_embeddings: Vec<Embedding> = Vec::new();
        let mut k: usize = 0;
        while k < self.embeddings.len()
            invariant
                self@.files == nf,
                self@.embeddings == old_self.embeddings,
                0 <= i < old_self.files.len(),
                fid@ == old_self.files[i as int].id@,
                store_wf(old_self),
                k <= old_self.embeddings.len(),
                kept_embeddings@ == old_self.embeddings.subrange(0, k as int).filter(
                    embedding_not_of(fid@),
                ),
                forall|a: int|
                    0 <= a < kept_embeddings@.len() ==> exists|b: int|
                        0 <= b < k && (#[trigger] kept_embeddings@[a]) == old_self.embeddings[b],
                forall|a: int, b: int|
                    0 <= a < kept_embeddings@.len() && 0 <= b < kept_embeddings@.len() && a != b
                        ==> (#[trigger] kept_embeddings@[a]).id@
                        != (#[trigger] kept_embeddings@[b]).id@,
                forall|a: int|
                    0 <= a < kept_embeddings@.len() ==> has_file_id(
                        nf,
                        (#[trigger] kept_embeddings@[a]).file_id@,
                    ),
                forall|a: int|
                    0 <= a < old_self.files.len() && a != i ==> has_file_id(
                        nf,
                        (#[trigger] old_self.files[a]).id@,
                    ),
            decreases old_self.embeddings.len() - k,
        {
            let ghost before = kept_embeddings@;
            proof {
                assert(old_self.embeddings.subrange(0, k as int + 1).drop_last()
                    =~= old_self.embeddings.subrange(0, k as int));
                reveal(Seq::filter);
            }
            if self.embeddings[k].file_id != fid {
                let e = self.embeddings[k].duplicate();
                proof {
                    let j = old_self.embeddings[k as int];
                    let b = choose|b: int|
                        0 <= b < old_self.files.len() && (#[trigger] old_self.files[b]).id@
                            == j.file_id@;
                    assert(b != i);
                    assert forall|a: int| 0 <= a < before.len() implies (#[trigger] before[a]).id@ != j.id@ by {
                        let c = choose|c: int| 0 <= c < k && before[a] == old_self.embeddings[c];
                        assert(old_self.embeddings[c] == before[a]);
                    }
                }
                kept_embeddings.push(e);
                proof {
                    assert forall|a: int|
                        0 <= a < kept_embeddings@.len() implies exists|b: int|
                            0 <= b < k + 1 && (#[trigger] kept_embeddings@[a])
                                == old_self.embeddings[b] by {
                        if a < before.len() {
                            assert(kept_embeddings@[a] == before[a]);
                        } else {
                            assert(kept_embeddings@[a] == old_self.embeddings[k as int]);
                        }
                    }
                }
            }
            k += 1;
        }
        proof {
            assert(old_self.embeddings.subrange(0, old_self.embeddings.len() as int)
                =~= old_self.embeddings);
        }
        self.jobs = kept_jobs;
        self.embeddings = kept_embeddings;
        proof {
            assert(nf =~= old_self.files.remove(i as int));
            assert forall|a: int, b: int|
                0 <= a < nf.len() && 0 <= b < nf.len() && a != b implies (#[trigger] nf[a]).id@
                    != (#[trigger] nf[b]).id@ && nf[a].path@ != nf[b].path@ by {
                let a2 = if a < i { a } else { a + 1 };
                let b2 = if b < i { b } else { b + 1 };
                assert(nf[a] == old_self.files[a2]);
                assert(nf[b] == old_self.files[b2]);
            }
        }
        Ok(removed)
    }
}

} // verus!