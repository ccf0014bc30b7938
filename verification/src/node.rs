use vstd::prelude::*;
use crate::batch::{Batch, BatchDirection};
use crate::commands::Command;
use crate::decimal::{ascii_bytes, decimal};
use crate::keyed::KeyedTable;
use crate::record::{clock_prefix, record_bytes, write_record};

verus! {

/// Simulated time each batch of the consensus node advances the clocks by:
/// ten seconds, in nanoseconds.
pub const BATCH_CLOCK_ADVANCE: u64 = 10_000_000_000;

/// The clock record that closes every batch.
pub open spec fn closing_clock_record() -> Seq<u8> {
    record_bytes(0, 0, clock_prefix() + ascii_bytes(decimal(BATCH_CLOCK_ADVANCE as nat)))
}

/// The records the consensus node has queued for the next batch, and the
/// number of the last batch it sent.
pub struct BatchSender {
    pub pending: Vec<u8>,
    pub batch_number: u64,
}

impl BatchSender {
    /// Nothing queued; no batch sent yet.
    pub fn new() -> (s: BatchSender)
        ensures
            s.pending@.len() == 0,
            s.batch_number == 0,
    {
        BatchSender { pending: Vec::new(), batch_number: 0 }
    }

    /// Queues the bytes of a record for the next batch.
    pub fn queue(&mut self, record: &[u8])
        ensures
            final(self).pending@ == old(self).pending@ + record@,
            final(self).batch_number == old(self).batch_number,
    {
        self.pending.extend_from_slice(record);
    }

    /// Closes the next batch: the queued records and a clock record of ten
    /// seconds, under the next number, travelling to the runtimes; the queue
    /// is left empty.
    pub fn seal_batch(&mut self) -> (b: Batch)
        requires
            old(self).batch_number < u64::MAX,
        ensures
            b.number == old(self).batch_number + 1,
            b.direction == BatchDirection::Incoming,
            b.data@ == old(self).pending@ + closing_clock_record(),
            final(self).batch_number == b.number,
            final(self).pending@.len() == 0,
    {
        self.batch_number = self.batch_number + 1;
        proof {
            reveal_with_fuel(decimal, 12);
            assert(decimal(BATCH_CLOCK_ADVANCE as nat).len() == 11);
        }
        match write_record(&Command::Clock(BATCH_CLOCK_ADVANCE)) {
            Ok(r) => self.pending.extend_from_slice(r.as_slice()),
            Err(_) => {},
        }
        let mut data: Vec<u8> = Vec::new();
        std::mem::swap(&mut data, &mut self.pending);
        Batch { number: self.batch_number, direction: BatchDirection::Incoming, data }
    }
}

/// The runtimes connected to the consensus node, each with the number of
/// the last batch it has been sent, and the id the next one gets.
pub struct RuntimeManager {
    runtimes: KeyedTable<u64, u64>,
    next_runtime_id: u64,
}

impl RuntimeManager {
    /// Last batch sent to each runtime, by id.
    pub closed spec fn last_batches(&self) -> Map<u64, u64> {
        self.runtimes.view()
    }

    pub closed spec fn next_id(&self) -> u64 {
        self.next_runtime_id
    }

    /// The table is well formed, and every runtime's id was handed out
    /// before: it is below the next id.
    pub closed spec fn wf(&self) -> bool {
        &&& self.runtimes.wf()
        &&& forall|k: u64| #[trigger] self.runtimes.view().contains_key(k) ==> k < self.next_runtime_id
    }

    /// Every connected runtime's id is below the next id to hand out.
    pub proof fn lemma_ids_below_next(&self, id: u64)
        requires
            self.wf(),
            self.last_batches().contains_key(id),
        ensures
            id < self.next_id(),
    {
    }

    /// No runtime yet; the first gets id 0.
    pub fn new() -> (m: RuntimeManager)
        ensures
            m.wf(),
            m.last_batches() == Map::<u64, u64>::empty(),
            m.next_id() == 0,
    {
        RuntimeManager { runtimes: KeyedTable::new(), next_runtime_id: 0 }
    }

    /// A runtime has connected: it gets the next id, with no batch sent.
    pub fn register(&mut self) -> (id: u64)
        requires
            old(self).wf(),
            old(self).next_id() < u64::MAX,
        ensures
            final(self).wf(),
            id == old(self).next_id(),
            !old(self).last_batches().contains_key(id),
            final(self).next_id() == id + 1,
            final(self).last_batches() == old(self).last_batches().insert(id, 0),
    {
        let id = self.next_runtime_id;
        self.next_runtime_id = self.next_runtime_id + 1;
        self.runtimes.insert(id, 0);
        id
    }

    /// Runtime ids are never reused. `register` hands out the next id and
    /// raises it by one, and no other operation changes it; so when a first
    /// registration gave `first` and a later one found the next id at
    /// `at_later` (which can only have grown since), the later id is larger.
    pub proof fn lemma_runtime_ids_never_reused(first: u64, at_later: u64)
        requires
            first + 1 <= at_later,
        ensures
            first < at_later,
            first != at_later,
    {
    }

    /// A runtime whose connection was lost leaves.
    pub fn remove(&mut self, id: u64)
        requires
            old(self).wf(),
        ensures
            final(self).wf(),
            final(self).next_id() == old(self).next_id(),
            final(self).last_batches() == old(self).last_batches().remove(id),
    {
        let _ = self.runtimes.remove(&id);
    }

    /// The connected runtimes, each once.
    pub fn runtime_ids(&self) -> (v: Vec<u64>)
        requires
            self.wf(),
        ensures
            forall|i: int, j: int| 0 <= i < j < v@.len() ==> v@[i] != v@[j],
            forall|id: u64| #[trigger] self.last_batches().contains_key(id) <==> v@.contains(id),
    {
        self.runtimes.keys()
    }

    /// The runtimes a broadcast of batch `number` goes to: those whose last
    /// batch is not after it, each once.
    pub fn broadcast_targets(&self, number: u64) -> (v: Vec<u64>)
        requires
            self.wf(),
        ensures
            forall|i: int, j: int| 0 <= i < j < v@.len() ==> v@[i] != v@[j],
            forall|id: u64| #[trigger] v@.contains(id) <==>
                (self.last_batches().contains_key(id) && self.last_batches()[id] <= number),
    {
        let ids = self.runtimes.keys();
        let mut v: Vec<u64> = Vec::new();
        let mut i: usize = 0;
        while i < ids.len()
            invariant
                self.wf(),
                i <= ids@.len(),
                forall|a: int, b: int| 0 <= a < b < ids@.len() ==> ids@[a] != ids@[b],
                forall|id: u64| #[trigger] self.last_batches().contains_key(id) <==> ids@.contains(id),
                forall|a: int, b: int| 0 <= a < b < v@.len() ==> v@[a] != v@[b],
                forall|id: u64| #[trigger] v@.contains(id) <==> (exists|k: int| 0 <= k < i && ids@[k] == id
                    && self.last_batches()[id] <= number),
            decreases ids@.len() - i,
        {
            let id = ids[i];
            let last = match self.runtimes.get(&id) {
                Some(l) => *l,
                None => 0,
            };
            assert(ids@.contains(id));
            if last <= number {
                proof {
                    assert forall|a: int| 0 <= a < v@.len() implies v@[a] != id by {
                        if v@[a] == id {
                            assert(v@.contains(id));
                            let k = choose|k: int| 0 <= k < i && ids@[k] == id && self.last_batches()[id] <= number;
                        }
                    }
                }
                let ghost before = v@;
                v.push(id);
                proof {
                    assert forall|x: u64| #[trigger] v@.contains(x) <==> (exists|k: int| 0 <= k < i + 1 && ids@[k] == x
                        && self.last_batches()[x] <= number) by {
                        if v@.contains(x) {
                            let q = choose|q: int| 0 <= q < v@.len() && v@[q] == x;
                            if q < before.len() {
                                assert(before.contains(x));
                            } else {
                                assert(ids@[i as int] == x);
                            }
                        }
                        if exists|k: int| 0 <= k < i + 1 && ids@[k] == x && self.last_batches()[x] <= number {
                            let k = choose|k: int| 0 <= k < i + 1 && ids@[k] == x && self.last_batches()[x] <= number;
                            if k < i {
                                assert(before.contains(x));
                                let q = choose|q: int| 0 <= q < before.len() && before[q] == x;
                                assert(v@[q] == x);
                            } else {
                                assert(v@[before.len() as int] == x);
                            }
                        }
                    }
                }
            } else {
                proof {
                    assert forall|x: u64| #[trigger] v@.contains(x) <==> (exists|k: int| 0 <= k < i + 1 && ids@[k] == x
                        && self.last_batches()[x] <= number) by {
                        if exists|k: int| 0 <= k < i + 1 && ids@[k] == x && self.last_batches()[x] <= number {
                            let k = choose|k: int| 0 <= k < i + 1 && ids@[k] == x && self.last_batches()[x] <= number;
                            if k == i {
                                assert(false);
                            }
                        }
                    }
                }
            }
            i = i + 1;
        }
        proof {
            assert forall|id: u64| #[trigger] v@.contains(id) <==>
                (self.last_batches().contains_key(id) && self.last_batches()[id] <= number) by {
                if self.last_batches().contains_key(id) && self.last_batches()[id] <= number {
                    assert(ids@.contains(id));
                    let k = choose|k: int| 0 <= k < ids@.len() && ids@[k] == id;
                    assert(exists|k: int| 0 <= k < ids@.len() && ids@[k] == id && self.last_batches()[id] <= number);
                }
                if v@.contains(id) {
                    let k = choose|k: int| 0 <= k < ids@.len() && ids@[k] == id && self.last_batches()[id] <= number;
                    assert(ids@.contains(id));
                }
            }
        }
        v
    }

    /// Records that runtime `id` has been sent batch `number`; an unknown
    /// id changes nothing.
    pub fn mark_sent(&mut self, id: u64, number: u64)
        requires
            old(self).wf(),
        ensures
            final(self).wf(),
            final(self).next_id() == old(self).next_id(),
            final(self).last_batches() == (if old(self).last_batches().contains_key(id) {
                old(self).last_batches().insert(id, number)
            } else {
                old(self).last_batches()
            }),
    {
        if self.runtimes.contains_key(&id) {
            self.runtimes.insert(id, number);
        }
    }

    /// The session file up to batch `number` has been sent to runtime `id`:
    /// `true` and its last batch set, or `false` for an unknown id.
    pub fn send_session_file(&mut self, id: u64, number: u64) -> (ok: bool)
        requires
            old(self).wf(),
        ensures
            final(self).wf(),
            ok == old(self).last_batches().contains_key(id),
            final(self).next_id() == old(self).next_id(),
            final(self).last_batches() == (if ok {
                old(self).last_batches().insert(id, number)
            } else {
                old(self).last_batches()
            }),
    {
        let ok = self.runtimes.contains_key(&id);
        self.mark_sent(id, number);
        ok
    }

    /// An outgoing batch `number` from runtime `id` is taken only when it is
    /// newer than the last batch of that runtime, which it then becomes;
    /// an old batch or an unknown id is ignored.
    pub fn handle_outgoing_batch(&mut self, id: u64, number: u64) -> (taken: bool)
        requires
            old(self).wf(),
        ensures
            final(self).wf(),
            final(self).next_id() == old(self).next_id(),
            taken == (old(self).last_batches().contains_key(id) && old(self).last_batches()[id] < number),
            final(self).last_batches() == (if taken {
                old(self).last_batches().insert(id, number)
            } else {
                old(self).last_batches()
            }),
    {
        let last = match self.runtimes.get(&id) {
            Some(l) => *l,
            None => return false,
        };
        if last < number {
            self.runtimes.insert(id, number);
            true
        } else {
            false
        }
    }
}

} // verus!
