use vstd::prelude::*;

verus! {

/// The deterministic simulation clock, in nanoseconds; it only moves when a
/// consensus clock record says so.
pub struct GlobalClock {
    time: u64,
}

impl GlobalClock {
    pub closed spec fn spec_now(&self) -> u64 {
        self.time
    }

    /// A clock at time 0.
    pub fn new() -> (c: GlobalClock)
        ensures
            c.spec_now() == 0,
    {
        GlobalClock { time: 0 }
    }

    /// The current simulation time.
    pub fn now(&self) -> (t: u64)
        ensures
            t == self.spec_now(),
    {
        self.time
    }

    /// Advances the clock by `delta`, wrapping around past `u64::MAX` as an
    /// atomic `fetch_add` does.
    pub fn increment(&mut self, delta: u64)
        ensures
            final(self).spec_now() == (old(self).spec_now() + delta) % 0x1_0000_0000_0000_0000,
    {
        self.time = self.time.wrapping_add(delta);
    }
}

/// Hands out consecutive numbers, starting from a given one; like an atomic
/// `fetch_add(1)` it wraps around past `u64::MAX`.
pub struct IdCounter {
    next: u64,
}

impl IdCounter {
    pub closed spec fn spec_next(&self) -> u64 {
        self.next
    }

    pub fn starting_at(first: u64) -> (c: IdCounter)
        ensures
            c.spec_next() == first,
    {
        IdCounter { next: first }
    }

    /// The next number; the counter moves on by one.
    pub fn take_next(&mut self) -> (id: u64)
        ensures
            id == old(self).spec_next(),
            final(self).spec_next() == (old(self).spec_next() + 1) % 0x1_0000_0000_0000_0000,
    {
        let id = self.next;
        self.next = self.next.wrapping_add(1);
        id
    }
}

/// Process ids start at 1.
pub fn pid_counter() -> (c: IdCounter)
    ensures
        c.spec_next() == 1,
{
    IdCounter::starting_at(1)
}

/// The next process id to hand out.
pub fn get_next_pid(pids: &mut IdCounter) -> (pid: u64)
    ensures
        pid == old(pids).spec_next(),
        final(pids).spec_next() == (old(pids).spec_next() + 1) % 0x1_0000_0000_0000_0000,
{
    pids.take_next()
}

/// The number a counter that starts at `first` hands out at its call `k`
/// (counting from 0): each call gives the counter's number and moves it on
/// by one, wrapping past `u64::MAX`.
pub open spec fn id_at(first: u64, k: nat) -> u64
    decreases k,
{
    if k == 0 {
        first
    } else {
        ((id_at(first, (k - 1) as nat) + 1) % 0x1_0000_0000_0000_0000) as u64
    }
}

proof fn lemma_id_at(first: u64, k: nat)
    ensures
        id_at(first, k) == (first + k) % 0x1_0000_0000_0000_0000,
    decreases k,
{
    if k > 0 {
        lemma_id_at(first, (k - 1) as nat);
        let m = 0x1_0000_0000_0000_0000int;
        let a = first + k - 1;
        assert(((a % m) + 1) % m == (a + 1) % m) by (nonlinear_arith)
            requires m == 0x1_0000_0000_0000_0000int, a >= 0;
    }
}

/// Handed-out numbers are never reused: of fewer than 2^64 calls of one
/// counter, two different calls give different numbers. So no two processes
/// get the same pid, and no two outgoing batches the same number.
pub proof fn lemma_ids_never_reused(first: u64, k1: nat, k2: nat)
    requires
        k1 < k2 < 0x1_0000_0000_0000_0000,
    ensures
        id_at(first, k1) != id_at(first, k2),
{
    lemma_id_at(first, k1);
    lemma_id_at(first, k2);
    let m = 0x1_0000_0000_0000_0000int;
    let a = first + k1;
    let b = first + k2;
    assert(a % m != b % m) by (nonlinear_arith)
        requires m == 0x1_0000_0000_0000_0000int, 0 <= a, a < b, b - a < m;
}

/// A counter started at 1, as the pid counter is, gives 0 only after
/// 2^64 - 1 calls: the pids of the first 2^64 - 1 processes are never 0.
pub proof fn lemma_pids_not_zero(k: nat)
    requires
        k < 0xffff_ffff_ffff_ffff,
    ensures
        id_at(1, k) == k + 1,
{
    lemma_id_at(1, k);
}

/// Two increments advance the clock as much as one by their sum.
pub proof fn lemma_clock_increments_add(t: u64, a: u64, b: u64)
    ensures
        ((t + a) % 0x1_0000_0000_0000_0000 + b) % 0x1_0000_0000_0000_0000
            == (t + ((a + b) % 0x1_0000_0000_0000_0000)) % 0x1_0000_0000_0000_0000,
{
    assert(((t + a) % 0x1_0000_0000_0000_0000 + b) % 0x1_0000_0000_0000_0000
        == (t + ((a + b) % 0x1_0000_0000_0000_0000)) % 0x1_0000_0000_0000_0000) by (nonlinear_arith);
}

} // verus!
