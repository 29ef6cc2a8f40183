//! Admission accounting for the bounded client pool.
//!
//! The runtime pool hands out real network clients; what is verified here is
//! the counting discipline that gates it: at most `capacity` checkouts are
//! outstanding at once, idle clients plus outstanding checkouts never exceed
//! `capacity`, a new client is constructed only when no idle one can be
//! reused — so at most `capacity` clients ever come into being, and none is
//! destroyed before the pool itself — and the idleness report is true
//! exactly when no checkout is outstanding.
use vstd::prelude::*;

verus! {

/// The counters of a bounded pool of reusable clients: how many admissions
/// the pool allows, how many checkouts are outstanding, how many idle
/// clients sit in the free list awaiting reuse, and how many clients have
/// ever been constructed.
pub struct PoolState {
    capacity: usize,
    outstanding: usize,
    idle: usize,
    created: usize,
}

impl PoolState {
    /// The pool's invariant: every client ever constructed is either checked
    /// out or idle (none is destroyed while the pool lives), and together
    /// they never exceed the configured capacity.
    pub closed spec fn wf(&self) -> bool {
        &&& self.created == self.outstanding + self.idle
        &&& self.outstanding + self.idle <= self.capacity
    }

    pub closed spec fn capacity(&self) -> usize {
        self.capacity
    }

    pub closed spec fn outstanding(&self) -> usize {
        self.outstanding
    }

    pub closed spec fn idle(&self) -> usize {
        self.idle
    }

    /// How many clients the pool has constructed so far.
    pub closed spec fn created(&self) -> usize {
        self.created
    }

    /// A fresh pool: no clients exist yet; they are created lazily on demand.
    pub fn new(capacity: usize) -> (r: PoolState)
        ensures
            r.wf(),
            r.capacity() == capacity,
            r.outstanding() == 0,
            r.idle() == 0,
            r.created() == 0,
    {
        PoolState { capacity, outstanding: 0, idle: 0, created: 0 }
    }

    /// Admit one checkout if capacity allows it, reusing an idle client when
    /// one exists and constructing a new one only when none is idle. Returns
    /// `true` when admitted (the caller then owns one slot) and `false` when
    /// the pool is saturated and the caller must wait.
    pub fn try_acquire(&mut self) -> (admitted: bool)
        requires
            old(self).wf(),
        ensures
            final(self).wf(),
            admitted == (old(self).outstanding() < old(self).capacity()),
            final(self).capacity() == old(self).capacity(),
            admitted ==> final(self).outstanding() == old(self).outstanding() + 1,
            admitted ==> final(self).idle() == if old(self).idle() > 0 {
                (old(self).idle() - 1) as usize
            } else {
                0usize
            },
            admitted && old(self).idle() > 0 ==> final(self).created() == old(self).created(),
            admitted && old(self).idle() == 0 ==> final(self).created() == old(self).created() + 1,
            !admitted ==> *final(self) == *old(self),
    {
        if self.outstanding < self.capacity {
            if self.idle > 0 {
                self.idle = self.idle - 1;
            } else {
                self.created = self.created + 1;
            }
            self.outstanding = self.outstanding + 1;
            true
        } else {
            false
        }
    }

    /// Return a checkout: the client goes back to the idle list and one
    /// admission unit is freed. No client is ever destroyed here.
    pub fn release(&mut self)
        requires
            old(self).wf(),
            old(self).outstanding() > 0,
        ensures
            final(self).wf(),
            final(self).capacity() == old(self).capacity(),
            final(self).outstanding() == old(self).outstanding() - 1,
            final(self).idle() == old(self).idle() + 1,
            final(self).created() == old(self).created(),
    {
        self.outstanding = self.outstanding - 1;
        self.idle = self.idle + 1;
    }

    /// Does every admitted unit currently sit idle? True exactly when no
    /// checkout is outstanding, which is what quiescence detection consults.
    pub fn is_idle(&self) -> (r: bool)
        ensures
            r == (self.outstanding() == 0),
    {
        self.outstanding == 0
    }

    /// How many clients have ever been constructed by this pool.
    pub fn created_count(&self) -> (r: usize)
        ensures
            r == self.created(),
    {
        self.created
    }
}

/// Law: in any well-formed pool state — that is, any state reachable through
/// `new`, `try_acquire` and `release`, each of which preserves `wf` — the
/// outstanding checkouts never exceed the capacity, idle plus outstanding
/// units never exceed the capacity, and at most `capacity` clients have ever
/// been constructed: every one of them is accounted for as checked out or
/// idle, so clients are reused, never leaked and never destroyed before the
/// pool.
pub proof fn lemma_pool_bounded(p: PoolState)
    requires
        p.wf(),
    ensures
        p.outstanding() <= p.capacity(),
        p.idle() + p.outstanding() <= p.capacity(),
        p.created() == p.idle() + p.outstanding(),
        p.created() <= p.capacity(),
{
}

} // verus!
