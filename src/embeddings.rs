use vstd::prelude::*;
use crate::content::fresh_id;
use crate::records::Embedding;
use crate::store::{has_embedding_id, has_file_id, Database, DbError};

verus! {

/// The embeddings of `file_id`.
pub open spec fn embedding_of(file_id: Seq<char>) -> spec_fn(Embedding) -> bool {
    |e: Embedding| e.file_id@ == file_id
}

/// An embedding just stored for `file_id` under identifier `id`.
pub open spec fn fresh_embedding(
    e: Embedding,
    id: Seq<char>,
    file_id: Seq<char>,
    vector: Seq<char>,
    now: u64,
) -> bool {
    &&& e.id@ == id
    &&& e.file_id@ == file_id
    &&& e.embedding@ == vector
    &&& e.created_at == now
}

impl Database {
    pub(crate) fn find_embedding(&self, id: &String) -> (r: bool)
        ensures
            r == has_embedding_id(self@.embeddings, id@),
    {
        let mut i: usize = 0;
        while i < self.embeddings.len()
            invariant
                i <= self.embeddings@.len(),
                forall|j: int| 0 <= j < i ==> (#[trigger] self.embeddings@[j]).id@ != id@,
            decreases self.embeddings@.len() - i,
        {
            if self.embeddings[i].id == *id {
                return true;
            }
            i += 1;
        }
        false
    }

    /// Stores a serialized vector for `file_id` under identifier `id`.
    pub fn insert_embedding_with_id(
        &mut self,
        id: String,
        file_id: &str,
        embedding: &str,
        now: u64,
    ) -> (r: Result<(), DbError>)
        requires
            old(self).wf(),
        ensures
            final(self).wf(),
            !has_file_id(old(self)@.files, file_id@) ==> r == Err::<(), DbError>(
                DbError::MissingFile,
            ),
            has_file_id(old(self)@.files, file_id@) && has_embedding_id(
                old(self)@.embeddings,
                id@,
            ) ==> r == Err::<(), DbError>(DbError::DuplicateId),
            r is Ok <==> has_file_id(old(self)@.files, file_id@) && !has_embedding_id(
                old(self)@.embeddings,
                id@,
            ),
            r is Err ==> *final(self) == *old(self),
            r is Ok ==> {
                &&& final(self)@.embeddings.drop_last() == old(self)@.embeddings
                &&& final(self)@.embeddings.len() == old(self)@.embeddings.len() + 1
                &&& fresh_embedding(
                    final(self)@.embeddings.last(),
                    id@,
                    file_id@,
                    embedding@,
                    now,
                )
                &&& final(self)@.files == old(self)@.files
                &&& final(self)@.jobs == old(self)@.jobs
                &&& final(self)@.events == old(self)@.events
                &&& final(self)@.next_event_id == old(self)@.next_event_id
            },
    {
        let fid = file_id.to_owned();
        if self.find_file_by_id(&fid).is_none() {
            return Err(DbError::MissingFile);
        }
        if self.find_embedding(&id) {
            return Err(DbError::DuplicateId);
        }
        let ghost old_embeddings = self@.embeddings;
        self.embeddings.push(
            Embedding { id, file_id: fid, embedding: embedding.to_owned(), created_at: now },
        );
        proof {
            assert(self@.embeddings.drop_last() =~= old_embeddings);
            assert forall|a: int| 0 <= a < self@.embeddings.len() implies has_file_id(
                self@.files,
                (#[trigger] self@.embeddings[a]).file_id@,
            ) by {
                if a < old_embeddings.len() {
                    assert(self@.embeddings[a] == old_embeddings[a]);
                }
            }
        }
        Ok(())
    }

    /// Stores a serialized vector for `file_id` under a fresh random identifier.
    pub fn insert_embedding(&mut self, file_id: &str, embedding: &str, now: u64) -> (r: Result<
        (),
        DbError,
    >)
        requires
            old(self).wf(),
        ensures
            final(self).wf(),
            !has_file_id(old(self)@.files, file_id@) ==> r == Err::<(), DbError>(
                DbError::MissingFile,
            ),
            r is Err ==> *final(self) == *old(self) && (r == Err::<(), DbError>(
                DbError::MissingFile,
            ) || r == Err::<(), DbError>(DbError::DuplicateId)),
            r == Err::<(), DbError>(DbError::MissingFile) ==> !has_file_id(
                old(self)@.files,
                file_id@,
            ),
            r is Ok ==> {
                &&& final(self)@.embeddings.drop_last() == old(self)@.embeddings
                &&& final(self)@.embeddings.len() == old(self)@.embeddings.len() + 1
                &&& exists|id: Seq<char>|
                    fresh_embedding(
                        final(self)@.embeddings.last(),
                        id,
                        file_id@,
                        embedding@,
                        now,
                    )
                &&& final(self)@.files == old(self)@.files
                &&& final(self)@.jobs == old(self)@.jobs
                &&& final(self)@.events == old(self)@.events
                &&& final(self)@.next_event_id == old(self)@.next_event_id
            },
    {
        let id = fresh_id();
        self.insert_embedding_with_id(id, file_id, embedding, now)
    }

    /// The embeddings of `file_id`, oldest first.
    pub fn get_embeddings_by_file_id(&self, file_id: &str) -> (r: Vec<Embedding>)
        ensures
            r@ == self@.embeddings.filter(embedding_of(file_id@)),
    {
        let fid = file_id.to_owned();
        let mut r: Vec<Embedding> = Vec::new();
        let mut k: usize = 0;
        while k < self.embeddings.len()
            invariant
                k <= self@.embeddings.len(),
                fid@ == file_id@,
                r@ == self@.embeddings.subrange(0, k as int).filter(embedding_of(file_id@)),
            decreases self@.embeddings.len() - k,
        {
            proof {
                assert(self@.embeddings.subrange(0, k as int + 1).drop_last()
                    =~= self@.embeddings.subrange(0, k as int));
                reveal(Seq::filter);
            }
            if self.embeddings[k].file_id == fid {
                r.push(self.embeddings[k].duplicate());
            }
            k += 1;
        }
        assert(self@.embeddings.subrange(0, self@.embeddings.len() as int) =~= self@.embeddings);
        r
    }
}

} // verus!
