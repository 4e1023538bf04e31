use vstd::prelude::*;
use crate::events::{ChangeEvent, FileEventType};
use crate::store::{events_wf, store_wf, Database, DbError};
use vstd::set_lib::lemma_len_subset;

verus! {

/// Enqueue order: by timestamp, then by insertion order.
pub open spec fn key_lt(a: ChangeEvent, b: ChangeEvent) -> bool {
    a.created_at < b.created_at || (a.created_at == b.created_at && a.id < b.id)
}

/// The stamp a new event gets: `now`, but never less than the log's latest.
pub open spec fn enqueue_time(events: Seq<ChangeEvent>, now: u64) -> u64 {
    if events.len() > 0 && now < events.last().created_at {
        events.last().created_at
    } else {
        now
    }
}

/// `e` is an unprocessed event of the log and no unprocessed event for the
/// same path was enqueued after it.
pub open spec fn is_actionable(events: Seq<ChangeEvent>, e: ChangeEvent) -> bool {
    &&& events.contains(e)
    &&& !e.processed
    &&& forall|j: int|
        0 <= j < events.len() && (#[trigger] events[j]).path@ == e.path@ && !events[j].processed
            ==> !key_lt(e, events[j])
}

/// `r` holds the `limit` oldest actionable events (all of them when there are
/// fewer), oldest first.
pub open spec fn drained(events: Seq<ChangeEvent>, limit: nat, r: Seq<ChangeEvent>) -> bool {
    &&& r.len() <= limit
    &&& forall|k: int| 0 <= k < r.len() ==> is_actionable(events, #[trigger] r[k])
    &&& forall|k: int, l: int| 0 <= k < l < r.len() ==> key_lt(#[trigger] r[k], #[trigger] r[l])
    &&& forall|e: ChangeEvent|
        is_actionable(events, e) && !r.contains(e) ==> r.len() == limit && (limit > 0 ==> key_lt(
            r[r.len() - 1],
            e,
        ))
}

/// An unprocessed event for `path` enqueued no later than `cutoff`.
pub open spec fn marks(path: Seq<char>, cutoff: u64) -> spec_fn(ChangeEvent) -> bool {
    |e: ChangeEvent| !e.processed && e.path@ == path && e.created_at <= cutoff
}

/// The number of events that `mark_processed(path, cutoff)` would mark.
pub open spec fn pending_count(events: Seq<ChangeEvent>, path: Seq<char>, cutoff: u64) -> nat {
    events.filter(marks(path, cutoff)).len()
}

/// `new_events` is `events` with exactly the events that `marks` selects set
/// to processed.
pub open spec fn marked(
    events: Seq<ChangeEvent>,
    new_events: Seq<ChangeEvent>,
    path: Seq<char>,
    cutoff: u64,
) -> bool {
    &&& new_events.len() == events.len()
    &&& forall|i: int|
        0 <= i < events.len() ==> if marks(path, cutoff)(#[trigger] events[i]) {
            &&& new_events[i].id == events[i].id
            &&& new_events[i].path == events[i].path
            &&& new_events[i].event_type == events[i].event_type
            &&& new_events[i].created_at == events[i].created_at
            &&& new_events[i].processed
        } else {
            new_events[i] == events[i]
        }
}

/// Two events of a well-formed log with the same identifier are the same event.
proof fn lemma_ids_identify(events: Seq<ChangeEvent>, next: nat, a: ChangeEvent, b: ChangeEvent)
    requires
        events_wf(events, next),
        events.contains(a),
        events.contains(b),
        a.id == b.id,
    ensures
        a == b,
{
    let i = choose|i: int| 0 <= i < events.len() && events[i] == a;
    let j = choose|j: int| 0 <= j < events.len() && events[j] == b;
    if i < j {
        assert(events[i].id < events[j].id);
    } else if j < i {
        assert(events[j].id < events[i].id);
    }
}

impl Database {
    /// A copy of the event log, in insertion order.
    pub fn events(&self) -> (r: Vec<ChangeEvent>)
        ensures
            r@ == self@.events,
    {
        let mut r: Vec<ChangeEvent> = Vec::new();
        let mut i: usize = 0;
        while i < self.events.len()
            invariant
                i <= self.events@.len(),
                r@ == self.events@.subrange(0, i as int),
            decreases self.events@.len() - i,
        {
            r.push(self.events[i].duplicate());
            i += 1;
            assert(r@ =~= self.events@.subrange(0, i as int));
        }
        assert(r@ =~= self.events@);
        r
    }

    /// Appends a change notification to the log. No deduplication happens here.
    /// The event is stamped `now`, or the latest stamp in the log when the
    /// clock has gone back, so a later event never sorts before an earlier one.
    pub fn enqueue(&mut self, path: &str, event_type: FileEventType, now: u64) -> (r: Result<
        (),
        DbError,
    >)
        requires
            old(self).wf(),
        ensures
            final(self).wf(),
            r is Err <==> old(self)@.next_event_id == u64::MAX,
            r is Err ==> r == Err::<(), DbError>(DbError::LogFull) && *final(self) == *old(self),
            r is Ok ==> {
                let e = final(self)@.events.last();
                &&& final(self)@.events.drop_last() == old(self)@.events
                &&& final(self)@.events.len() == old(self)@.events.len() + 1
                &&& e.id == old(self)@.next_event_id
                &&& e.path@ == path@
                &&& e.event_type == event_type
                &&& e.created_at == enqueue_time(old(self)@.events, now)
                &&& forall|i: int|
                    0 <= i < old(self)@.events.len() ==> (#[trigger] old(self)@.events[i]).created_at
                        <= e.created_at
                &&& !e.processed
                &&& final(self)@.next_event_id == old(self)@.next_event_id + 1
                &&& final(self)@.files == old(self)@.files
                &&& final(self)@.jobs == old(self)@.jobs
                &&& final(self)@.embeddings == old(self)@.embeddings
            },
    {
        if self.next_event_id == u64::MAX {
            return Err(DbError::LogFull);
        }
        let ghost old_events = self@.events;
        let id = self.next_event_id;
        let n = self.events.len();
        let stamp = if n > 0 && now < self.events[n - 1].created_at {
            self.events[n - 1].created_at
        } else {
            now
        };
        proof {
            assert forall|i: int| 0 <= i < old_events.len() implies (#[trigger] old_events[i]).created_at
                <= stamp by {
                if i < old_events.len() - 1 {
                    assert(old_events[i].created_at <= old_events[old_events.len() - 1].created_at);
                }
            }
        }
        self.events.push(
            ChangeEvent { id, path: path.to_owned(), event_type, created_at: stamp, processed: false },
        );
        self.next_event_id = id + 1;
        proof {
            assert(self@.events.drop_last() =~= old_events);
            assert forall|i: int, j: int|
                0 <= i < j < self@.events.len() implies (#[trigger] self@.events[i]).id
                    < (#[trigger] self@.events[j]).id by {
                assert(self@.events[i] == old_events[i]);
                if j < old_events.len() {
                    assert(self@.events[j] == old_events[j]);
                }
            }
            assert forall|i: int| 0 <= i < self@.events.len() implies (#[trigger] self@.events[i]).id
                < self@.next_event_id by {
                if i < old_events.len() {
                    assert(self@.events[i] == old_events[i]);
                }
            }
        }
        Ok(())
    }

    /// Whether event `i` is the newest unprocessed event for its path.
    fn newest_for_path(&self, i: usize) -> (r: bool)
        requires
            i < self@.events.len(),
            !self@.events[i as int].processed,
        ensures
            r == is_actionable(self@.events, self@.events[i as int]),
    {
        let ghost evs = self@.events;
        let e = &self.events[i];
        let mut j: usize = 0;
        while j < self.events.len()
            invariant
                j <= evs.len(),
                evs == self@.events,
                i < evs.len(),
                *e == evs[i as int],
                forall|a: int|
                    0 <= a < j && (#[trigger] evs[a]).path@ == e.path@ && !evs[a].processed
                        ==> !key_lt(*e, evs[a]),
            decreases evs.len() - j,
        {
            let o = &self.events[j];
            if !o.processed && o.path == e.path && (e.created_at < o.created_at || (e.created_at
                == o.created_at && e.id < o.id)) {
                return false;
            }
            j += 1;
        }
        proof {
            assert(evs[i as int] == *e);
        }
        true
    }

    /// For each path, its newest unprocessed event; the `limit` oldest of those
    /// are returned, oldest first. The log is not changed.
    pub fn drain_pending(&self, limit: usize) -> (r: Vec<ChangeEvent>)
        requires
            self.wf(),
        ensures
            drained(self@.events, limit as nat, r@),
            forall|k: int, l: int|
                0 <= k < r@.len() && 0 <= l < r@.len() && k != l ==> (#[trigger] r@[k]).path@
                    != (#[trigger] r@[l]).path@,
    {
        let ghost evs = self@.events;
        let mut cand: Vec<ChangeEvent> = Vec::new();
        let mut i: usize = 0;
        while i < self.events.len()
            invariant
                evs == self@.events,
                i <= evs.len(),
                forall|a: int| 0 <= a < cand@.len() ==> is_actionable(evs, #[trigger] cand@[a]),
                forall|b: int|
                    0 <= b < i && is_actionable(evs, #[trigger] evs[b]) ==> cand@.contains(evs[b]),
            decreases evs.len() - i,
        {
            let ghost cand_old = cand@;
            if !self.events[i].processed && self.newest_for_path(i) {
                cand.push(self.events[i].duplicate());
                proof {
                    assert(cand@[cand@.len() - 1] == evs[i as int]);
                }
            }
            proof {
                assert forall|b: int|
                    0 <= b < i + 1 && is_actionable(evs, #[trigger] evs[b]) implies cand@.contains(
                    evs[b],
                ) by {
                    if b < i {
                        let k = choose|k: int| 0 <= k < cand_old.len() && cand_old[k] == evs[b];
                        assert(cand@[k] == evs[b]);
                    } else {
                        assert(cand@[cand@.len() - 1] == evs[i as int]);
                    }
                }
            }
            i += 1;
        }
        proof {
            assert forall|e: ChangeEvent| is_actionable(evs, e) implies cand@.contains(e) by {
                let b = choose|b: int| 0 <= b < evs.len() && evs[b] == e;
                assert(is_actionable(evs, evs[b]));
            }
        }
        let mut r: Vec<ChangeEvent> = Vec::new();
        let mut exhausted = false;
        while !exhausted && r.len() < limit
            invariant
                exhausted ==> forall|e: ChangeEvent| is_actionable(evs, e) ==> r@.contains(e),
                evs == self@.events,
                store_wf(self@),
                r@.len() <= limit,
                forall|a: int| 0 <= a < cand@.len() ==> is_actionable(evs, #[trigger] cand@[a]),
                forall|e: ChangeEvent| is_actionable(evs, e) ==> cand@.contains(e),
                forall|k: int| 0 <= k < r@.len() ==> is_actionable(evs, #[trigger] r@[k]),
                forall|k: int, l: int|
                    0 <= k < l < r@.len() ==> key_lt(#[trigger] r@[k], #[trigger] r@[l]),
                forall|e: ChangeEvent|
                    is_actionable(evs, e) && !r@.contains(e) ==> (r@.len() > 0 ==> key_lt(
                        r@[r@.len() - 1],
                        e,
                    )),
            decreases limit - r@.len() + if exhausted { 0int } else { 1int },
        {
            let mut best: Option<usize> = None;
            let mut j: usize = 0;
            while j < cand.len()
                invariant
                    j <= cand@.len(),
                    best matches Some(b) ==> b < j && (r@.len() == 0 || key_lt(
                        r@[r@.len() - 1],
                        cand@[b as int],
                    )),
                    best matches Some(b) ==> forall|a: int|
                        0 <= a < j && (r@.len() == 0 || key_lt(r@[r@.len() - 1], cand@[a]))
                            ==> !key_lt(#[trigger] cand@[a], cand@[b as int]),
                    best is None ==> forall|a: int|
                        0 <= a < j ==> !(r@.len() == 0 || key_lt(
                            r@[r@.len() - 1],
                            #[trigger] cand@[a],
                        )),
                decreases cand@.len() - j,
            {
                let c = &cand[j];
                let eligible = if r.len() == 0 {
                    true
                } else {
                    let last = &r[r.len() - 1];
                    last.created_at < c.created_at || (last.created_at == c.created_at && last.id
                        < c.id)
                };
                if eligible {
                    let better = match best {
                        None => true,
                        Some(b) => {
                            let cb = &cand[b];
                            c.created_at < cb.created_at || (c.created_at == cb.created_at && c.id
                                < cb.id)
                        },
                    };
                    if better {
                        best = Some(j);
                    }
                }
                j += 1;
            }
            match best {
                None => {
                    proof {
                        assert forall|e: ChangeEvent| is_actionable(evs, e) implies r@.contains(
                            e,
                        ) by {
                            if !r@.contains(e) {
                                let a = choose|a: int| 0 <= a < cand@.len() && cand@[a] == e;
                                assert(is_actionable(evs, cand@[a]));
                            }
                        }
                    }
                    exhausted = true;
                },
                Some(b) => {
                    let ghost before = r@;
                    let m = cand[b].duplicate();
                    proof {
                        assert(is_actionable(evs, cand@[b as int]));
                        assert forall|e: ChangeEvent|
                            is_actionable(evs, e) && !before.contains(e) && e != m implies key_lt(
                            m,
                            e,
                        ) by {
                            let a = choose|a: int| 0 <= a < cand@.len() && cand@[a] == e;
                            assert(!key_lt(cand@[a], cand@[b as int]));
                            if m.id == e.id {
                                lemma_ids_identify(evs, self@.next_event_id, m, e);
                            }
                        }
                        assert(!before.contains(m)) by {
                            if before.contains(m) {
                                let k = choose|k: int| 0 <= k < before.len() && before[k] == m;
                                if k < before.len() - 1 {
                                    assert(key_lt(before[k], before[before.len() - 1]));
                                }
                            }
                        }
                    }
                    r.push(m);
                    proof {
                        assert forall|e: ChangeEvent|
                            is_actionable(evs, e) && !r@.contains(e) && r@.len() > 0 implies key_lt(
                            r@[r@.len() - 1],
                            e,
                        ) by {
                            assert(r@[r@.len() - 1] == m);
                            assert(!before.contains(e)) by {
                                if before.contains(e) {
                                    let k = choose|k: int| 0 <= k < before.len() && before[k] == e;
                                    assert(r@[k] == e);
                                }
                            }
                            assert(e != m) by {
                                assert(r@[r@.len() - 1] == m);
                            }
                        }
                        assert forall|k: int, l: int|
                            0 <= k < l < r@.len() implies key_lt(#[trigger] r@[k], #[trigger] r@[l]) by {
                            if l == r@.len() - 1 && k < before.len() {
                                assert(r@[k] == before[k]);
                                if k < before.len() - 1 {
                                    assert(key_lt(before[k], before[before.len() - 1]));
                                }
                            }
                        }
                    }
                },
            }
        }
        proof {
            assert forall|k: int, l: int|
                0 <= k < r@.len() && 0 <= l < r@.len() && k != l implies (#[trigger] r@[k]).path@
                    != (#[trigger] r@[l]).path@ by {
                if r@[k].path@ == r@[l].path@ {
                    let (lo, hi) = if k < l { (k, l) } else { (l, k) };
                    assert(key_lt(r@[lo], r@[hi]));
                    assert(is_actionable(evs, r@[lo]));
                    assert(is_actionable(evs, r@[hi]));
                    let j = choose|j: int| 0 <= j < evs.len() && evs[j] == r@[hi];
                    assert(evs[j].path@ == r@[lo].path@);
                }
            }
        }
        r
    }

    /// Marks every unprocessed event for `path` enqueued no later than `cutoff`
    /// as processed, and returns how many there were. Zero means the call
    /// found nothing to do.
    pub fn mark_processed(&mut self, path: &str, cutoff: u64) -> (r: usize)
        requires
            old(self).wf(),
        ensures
            final(self).wf(),
            r == pending_count(old(self)@.events, path@, cutoff),
            marked(old(self)@.events, final(self)@.events, path@, cutoff),
            final(self)@.next_event_id == old(self)@.next_event_id,
            final(self)@.files == old(self)@.files,
            final(self)@.jobs == old(self)@.jobs,
            final(self)@.embeddings == old(self)@.embeddings,
    {
        let ghost evs = self@.events;
        let key = path.to_owned();
        let mut count: usize = 0;
        let mut i: usize = 0;
        while i < self.events.len()
            invariant
                self@.events.len() == evs.len(),
                i <= evs.len(),
                key@ == path@,
                self@.files == old(self)@.files,
                self@.jobs == old(self)@.jobs,
                self@.embeddings == old(self)@.embeddings,
                self@.next_event_id == old(self)@.next_event_id,
                count == evs.subrange(0, i as int).filter(marks(path@, cutoff)).len(),
                count <= i,
                forall|a: int| i <= a < evs.len() ==> self@.events[a] == evs[a],
                forall|a: int|
                    0 <= a < i ==> if marks(path@, cutoff)(#[trigger] evs[a]) {
                        &&& self@.events[a].id == evs[a].id
                        &&& self@.events[a].path == evs[a].path
                        &&& self@.events[a].event_type == evs[a].event_type
                        &&& self@.events[a].created_at == evs[a].created_at
                        &&& self@.events[a].processed
                    } else {
                        self@.events[a] == evs[a]
                    },
            decreases evs.len() - i,
        {
            proof {
                assert(evs.subrange(0, i as int + 1).drop_last() =~= evs.subrange(0, i as int));
                reveal(Seq::filter);
            }
            let hit = !self.events[i].processed && self.events[i].path == key
                && self.events[i].created_at <= cutoff;
            if hit {
                let cur = self.events[i].duplicate();
                self.events.set(
                    i,
                    ChangeEvent {
                        id: cur.id,
                        path: cur.path,
                        event_type: cur.event_type,
                        created_at: cur.created_at,
                        processed: true,
                    },
                );
                count += 1;
            }
            i += 1;
        }
        proof {
            assert(evs.subrange(0, evs.len() as int) =~= evs);
            let ne = self@.events;
            assert forall|a: int, b: int| 0 <= a < b < ne.len() implies (#[trigger] ne[a]).id
                < (#[trigger] ne[b]).id && ne[a].created_at <= ne[b].created_at by {
                assert(ne[a].id == evs[a].id);
                assert(ne[b].id == evs[b].id);
                assert(evs[a].id < evs[b].id);
                assert(ne[a].created_at == evs[a].created_at);
                assert(ne[b].created_at == evs[b].created_at);
            }
            assert forall|a: int| 0 <= a < ne.len() implies (#[trigger] ne[a]).id
                < self@.next_event_id by {
                assert(ne[a].id == evs[a].id);
                assert(evs[a].id < self@.next_event_id);
            }
        }
        count
    }
}

/// No element of `s` is selected by `marks`, so nothing is counted.
proof fn lemma_nothing_marked(s: Seq<ChangeEvent>, path: Seq<char>, cutoff: u64)
    requires
        forall|i: int| 0 <= i < s.len() ==> !marks(path, cutoff)(#[trigger] s[i]),
    ensures
        pending_count(s, path, cutoff) == 0,
    decreases s.len(),
{
    reveal(Seq::filter);
    if s.len() > 0 {
        let d = s.drop_last();
        assert forall|i: int| 0 <= i < d.len() implies !marks(path, cutoff)(#[trigger] d[i]) by {
            assert(d[i] == s[i]);
        }
        lemma_nothing_marked(d, path, cutoff);
    }
}

/// Marking is idempotent: once `mark_processed(path, cutoff)` has run, a second
/// call with the same arguments finds nothing to mark and returns 0.
pub proof fn lemma_mark_processed_idempotent(
    events: Seq<ChangeEvent>,
    after: Seq<ChangeEvent>,
    path: Seq<char>,
    cutoff: u64,
)
    requires
        marked(events, after, path, cutoff),
    ensures
        pending_count(after, path, cutoff) == 0,
        marked(after, after, path, cutoff),
{
    assert forall|i: int| 0 <= i < after.len() implies !marks(path, cutoff)(#[trigger] after[i]) by {
        assert(marks(path, cutoff)(events[i]) || after[i] == events[i]);
    }
    lemma_nothing_marked(after, path, cutoff);
}

/// A drain returns no more events than the log holds.
proof fn lemma_drained_len(events: Seq<ChangeEvent>, limit: nat, r: Seq<ChangeEvent>)
    requires
        drained(events, limit, r),
    ensures
        r.len() <= events.len(),
{
    assert(r.no_duplicates()) by {
        assert forall|k: int, l: int| 0 <= k < r.len() && 0 <= l < r.len() && k != l implies r[k]
            != r[l] by {
            if k < l {
                assert(key_lt(r[k], r[l]));
            } else {
                assert(key_lt(r[l], r[k]));
            }
        }
    }
    r.unique_seq_to_set();
    assert(r.to_set().subset_of(events.to_set())) by {
        assert forall|e: ChangeEvent| r.to_set().contains(e) implies events.to_set().contains(e) by {
            let k = choose|k: int| 0 <= k < r.len() && r[k] == e;
            assert(is_actionable(events, r[k]));
        }
    }
    events.lemma_cardinality_of_set();
    lemma_len_subset(r.to_set(), events.to_set());
}

/// The event last appended to a log is the one a drain picks for its path:
/// when the log holds fewer events than the limit, the drain returns that
/// event and no other event for the same path.
pub proof fn lemma_latest_event_is_drained(
    events: Seq<ChangeEvent>,
    next_event_id: nat,
    limit: nat,
    r: Seq<ChangeEvent>,
)
    requires
        events_wf(events, next_event_id),
        events.len() > 0,
        !events.last().processed,
        events.len() < limit,
        drained(events, limit, r),
    ensures
        r.contains(events.last()),
        forall|k: int|
            0 <= k < r.len() && (#[trigger] r[k]).path@ == events.last().path@ ==> r[k]
                == events.last(),
{
    let n = events.len() - 1;
    let last = events.last();
    assert(events[n] == last);
    assert forall|j: int|
        0 <= j < events.len() && (#[trigger] events[j]).path@ == last.path@ && !events[j].processed
            implies !key_lt(last, events[j]) by {
        if j < n {
            assert(events[j].id < events[n].id && events[j].created_at <= events[n].created_at);
        }
    }
    assert(is_actionable(events, last));
    lemma_drained_len(events, limit, r);
    assert forall|k: int| 0 <= k < r.len() && (#[trigger] r[k]).path@ == last.path@ implies r[k]
        == last by {
        assert(is_actionable(events, r[k]));
        assert(!key_lt(r[k], events[n]));
        let j = choose|j: int| 0 <= j < events.len() && events[j] == r[k];
        assert(!key_lt(last, events[j]));
        if r[k].id != last.id {
            if j < n {
                assert(events[j].id < events[n].id && events[j].created_at <= events[n].created_at);
            }
        }
        lemma_ids_identify(events, next_event_id, r[k], last);
    }
}

} // verus!
