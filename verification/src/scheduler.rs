use vstd::prelude::*;
use crate::commands::NetworkOperation;
use crate::fd_table::{FDEntry, FDTable, MAX_FDS};
use crate::nat_table::{NatTable, key};

verus! {

/// Where a process stands with the scheduler.
#[derive(Clone, Copy, Debug, PartialEq, Eq, Structural)]
pub enum ProcessState {
    Ready,
    Running,
    Blocked,
    Finished,
}

/// Why a process is blocked.
pub enum BlockReason {
    StdinRead,
    Timeout { resume_after: u64 },
    FileIO,
    NetworkIO,
    /// The write buffer of the process is full; it waits for a flush to this host path.
    WriteIO(String),
}

/// A network request that a process queued for the consensus node.
pub struct OutgoingNetworkMessage {
    pub pid: u64,
    pub operation: NetworkOperation,
}

/// What to check before a blocked process may run again.
pub enum UnblockCheck {
    /// Unread input on standard input.
    StdinInput,
    /// A successful flush of the write buffer to this host path.
    Flush(String),
    /// The clock at or past this time.
    ClockAt(u64),
    /// None of its sockets waiting for an accept or a receive.
    Network,
    /// Nothing unblocks it.
    Never,
}

pub open spec fn spec_unblock_check(reason: Option<BlockReason>) -> UnblockCheck {
    match reason {
        Some(BlockReason::StdinRead) => UnblockCheck::StdinInput,
        Some(BlockReason::WriteIO(path)) => UnblockCheck::Flush(path),
        Some(BlockReason::Timeout { resume_after }) => UnblockCheck::ClockAt(resume_after),
        Some(BlockReason::NetworkIO) => UnblockCheck::Network,
        _ => UnblockCheck::Never,
    }
}

/// When a blocked process is released: one that sleeps until `t` runs again
/// once the clock reads `t` or later; one waiting for standard input, for a
/// flush of its writes or for the network is released by that; only a
/// process with no recorded reason, or one waiting on file I/O, is never
/// released by the scheduler.
pub proof fn lemma_release_conditions(reason: Option<BlockReason>)
    ensures
        reason matches Some(BlockReason::Timeout { resume_after })
            ==> spec_unblock_check(reason) == UnblockCheck::ClockAt(resume_after),
        reason == Some(BlockReason::StdinRead) ==> spec_unblock_check(reason) == UnblockCheck::StdinInput,
        reason matches Some(BlockReason::WriteIO(p)) ==> spec_unblock_check(reason) == UnblockCheck::Flush(p),
        reason == Some(BlockReason::NetworkIO) ==> spec_unblock_check(reason) == UnblockCheck::Network,
        (spec_unblock_check(reason) is Never) <==> (reason is None || reason == Some(BlockReason::FileIO)),
{
}

/// The condition that releases a process blocked for `reason`.
pub fn unblock_check(reason: &Option<BlockReason>) -> (c: UnblockCheck)
    ensures
        c == spec_unblock_check(*reason),
        *reason matches Some(BlockReason::Timeout { resume_after }) ==> c == UnblockCheck::ClockAt(resume_after),
        (c is Never) <==> (reason is None || *reason == Some(BlockReason::FileIO)),
{
    proof {
        lemma_release_conditions(*reason);
    }
    match reason {
        Some(BlockReason::StdinRead) => UnblockCheck::StdinInput,
        Some(BlockReason::WriteIO(path)) => UnblockCheck::Flush(path.clone()),
        Some(BlockReason::Timeout { resume_after }) => UnblockCheck::ClockAt(*resume_after),
        Some(BlockReason::NetworkIO) => UnblockCheck::Network,
        _ => UnblockCheck::Never,
    }
}

/// Slot `i` is a socket of `pid` whose port waits for an accept or a receive.
pub open spec fn socket_waits(t: FDTable, nats: NatTable, pid: u64, i: int) -> bool {
    match t.slot(i) {
        Some(FDEntry::Socket { local_port, .. }) =>
            nats.accept_waits().contains_key(key(pid, local_port))
                || (nats.recv_waits().contains_key(key(pid, local_port)) && nats.recv_waits()[key(pid, local_port)]),
        _ => false,
    }
}

/// Whether a process blocked on the network still has a socket waiting for
/// an accept or a receive.
pub fn network_still_blocked(t: &FDTable, nats: &NatTable, pid: u64) -> (b: bool)
    requires
        nats.wf(),
    ensures
        b == exists|i: int| 0 <= i < MAX_FDS && socket_waits(*t, *nats, pid, i),
{
    let mut i: usize = 0;
    while i < MAX_FDS
        invariant
            nats.wf(),
            i <= MAX_FDS,
            forall|j: int| 0 <= j < i ==> !socket_waits(*t, *nats, pid, j),
        decreases MAX_FDS - i,
    {
        match &t.entries[i] {
            Some(FDEntry::Socket { local_port, .. }) => {
                if nats.is_waiting_for_accept(pid, *local_port) || nats.is_waiting_for_recv(pid, *local_port) {
                    assert(socket_waits(*t, *nats, pid, i as int));
                    return true;
                }
            },
            _ => {},
        }
        i = i + 1;
    }
    false
}

/// The run queues of the scheduler, over process handles `P`.
pub struct Scheduler<P> {
    ready: Vec<P>,
    blocked: Vec<P>,
    has_more_input: bool,
}

impl<P> Scheduler<P> {
    pub closed spec fn ready_queue(&self) -> Seq<P> {
        self.ready@
    }

    pub closed spec fn blocked_queue(&self) -> Seq<P> {
        self.blocked@
    }

    /// Whether the consensus input may still bring something.
    pub closed spec fn more_input(&self) -> bool {
        self.has_more_input
    }

    /// All given processes ready, in order; input expected.
    pub fn new(processes: Vec<P>) -> (s: Self)
        ensures
            s.ready_queue() == processes@,
            s.blocked_queue() == Seq::<P>::empty(),
            s.more_input(),
    {
        Scheduler { ready: processes, blocked: Vec::new(), has_more_input: true }
    }

    /// The scheduler keeps going while input may come or a process is queued.
    pub fn should_run(&self) -> (b: bool)
        ensures
            b == (self.more_input() || self.ready_queue().len() > 0 || self.blocked_queue().len() > 0),
    {
        self.has_more_input || self.ready.len() > 0 || self.blocked.len() > 0
    }

    pub fn ready_is_empty(&self) -> (b: bool)
        ensures
            b == (self.ready_queue().len() == 0),
    {
        self.ready.len() == 0
    }

    pub fn blocked_is_empty(&self) -> (b: bool)
        ensures
            b == (self.blocked_queue().len() == 0),
    {
        self.blocked.len() == 0
    }

    /// The process at the front of the ready queue, taken out.
    pub fn next_ready(&mut self) -> (r: Option<P>)
        ensures
            old(self).ready_queue().len() == 0 ==> r is None && final(self).ready_queue() == old(self).ready_queue(),
            old(self).ready_queue().len() > 0 ==> r == Some(old(self).ready_queue()[0])
                && final(self).ready_queue() == old(self).ready_queue().drop_first(),
            final(self).blocked_queue() == old(self).blocked_queue(),
            final(self).more_input() == old(self).more_input(),
    {
        if self.ready.len() == 0 {
            None
        } else {
            let p = self.ready.remove(0);
            assert(self.ready@ =~= old(self).ready@.drop_first());
            Some(p)
        }
    }

    /// Queues a process that has stopped running, by the state it reached:
    /// a ready one at the back of the ready queue, a blocked one at the back
    /// of the blocked queue. A finished one, or one still marked running, is
    /// handed back and leaves the scheduler.
    pub fn place(&mut self, p: P, state: ProcessState) -> (r: Option<P>)
        ensures
            final(self).more_input() == old(self).more_input(),
            state == ProcessState::Ready ==> r is None
                && final(self).ready_queue() == old(self).ready_queue().push(p)
                && final(self).blocked_queue() == old(self).blocked_queue(),
            state == ProcessState::Blocked ==> r is None
                && final(self).blocked_queue() == old(self).blocked_queue().push(p)
                && final(self).ready_queue() == old(self).ready_queue(),
            (state == ProcessState::Finished || state == ProcessState::Running) ==> r == Some(p)
                && final(self).ready_queue() == old(self).ready_queue()
                && final(self).blocked_queue() == old(self).blocked_queue(),
    {
        match state {
            ProcessState::Ready => {
                self.ready.push(p);
                None
            },
            ProcessState::Blocked => {
                self.blocked.push(p);
                None
            },
            _ => Some(p),
        }
    }

    /// Every blocked process, in order, taken out.
    pub fn take_blocked(&mut self) -> (v: Vec<P>)
        ensures
            v@ == old(self).blocked_queue(),
            final(self).blocked_queue() == Seq::<P>::empty(),
            final(self).ready_queue() == old(self).ready_queue(),
            final(self).more_input() == old(self).more_input(),
    {
        let mut v: Vec<P> = Vec::new();
        std::mem::swap(&mut v, &mut self.blocked);
        v
    }

    /// New processes join the back of the ready queue, in order.
    pub fn enqueue_new(&mut self, mut processes: Vec<P>)
        ensures
            final(self).ready_queue() == old(self).ready_queue() + processes@,
            final(self).blocked_queue() == old(self).blocked_queue(),
            final(self).more_input() == old(self).more_input(),
    {
        self.ready.append(&mut processes);
    }

    /// Records whether the consensus input may still bring something.
    pub fn record_input(&mut self, more: bool)
        ensures
            final(self).more_input() == more,
            final(self).ready_queue() == old(self).ready_queue(),
            final(self).blocked_queue() == old(self).blocked_queue(),
    {
        self.has_more_input = more;
    }

    /// Nothing is queued and no input will come: the scheduler is done.
    pub fn done(&self) -> (b: bool)
        ensures
            b == (self.ready_queue().len() == 0 && self.blocked_queue().len() == 0 && !self.more_input()),
    {
        self.ready.len() == 0 && self.blocked.len() == 0 && !self.has_more_input
    }
}

/// Network requests gathered from processes for the next outgoing batch.
pub struct BatchCollector {
    pub outgoing_messages: Vec<OutgoingNetworkMessage>,
    pub batch_start_time: u64,
}

impl BatchCollector {
    /// An empty collection started at `now`.
    pub fn new(now: u64) -> (c: BatchCollector)
        ensures
            c.outgoing_messages@.len() == 0,
            c.batch_start_time == now,
    {
        BatchCollector { outgoing_messages: Vec::new(), batch_start_time: now }
    }

    /// Moves the requests queued by one process, last queued first, to the
    /// end of the collection; the process queue is left empty.
    pub fn collect_from_queue(&mut self, queue: &mut Vec<OutgoingNetworkMessage>)
        ensures
            final(queue)@.len() == 0,
            final(self).outgoing_messages@ == old(self).outgoing_messages@ + old(queue)@.reverse(),
            final(self).batch_start_time == old(self).batch_start_time,
    {
        let ghost q0 = queue@;
        let ghost m0 = self.outgoing_messages@;
        while queue.len() > 0
            invariant
                q0.len() >= queue@.len(),
                queue@ == q0.take(queue@.len() as int),
                self.outgoing_messages@ == m0 + q0.skip(queue@.len() as int).reverse(),
                self.batch_start_time == old(self).batch_start_time,
            decreases queue@.len(),
        {
            let n = queue.len();
            match queue.pop() {
                Some(m) => {
                    self.outgoing_messages.push(m);
                    assert(queue@ =~= q0.take(queue@.len() as int));
                    assert(q0.skip(n - 1).reverse() =~= q0.skip(n as int).reverse().push(q0[n - 1]));
                },
                None => {},
            }
        }
        assert(q0.skip(0) =~= q0);
    }

    /// The collected requests, in order; the collection is left empty.
    pub fn take_messages(&mut self) -> (v: Vec<OutgoingNetworkMessage>)
        ensures
            v@ == old(self).outgoing_messages@,
            final(self).outgoing_messages@.len() == 0,
            final(self).batch_start_time == old(self).batch_start_time,
    {
        let mut v: Vec<OutgoingNetworkMessage> = Vec::new();
        std::mem::swap(&mut v, &mut self.outgoing_messages);
        v
    }
}

} // verus!
