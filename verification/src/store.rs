//! The result store: a single-slot, thread-safe mailbox holding the outcome
//! of the most recently completed classification attempt.
//!
//! The slot is guarded by a verified reader–writer lock, held only for the
//! duration of one read or one write, never across a network call. A reader
//! therefore never observes a partially written outcome: every read returns a
//! complete value that some write put there (or the initial emptiness), which
//! the lock's invariant states once and for all — any property that the
//! initial emptiness satisfies and that every writer establishes is satisfied
//! by every value ever read back.

use vstd::prelude::*;
use vstd::rwlock::{RwLock, RwLockPredicate};
use crate::error::{opt_outcome_view, ClassificationOutcome, OutcomeView};

verus! {

/// The lock invariant of a store: a property of the slot's value, stated
/// over mathematical values so that handing out a snapshot preserves it.
pub struct SlotInvariant {
    pub ok: spec_fn(Option<OutcomeView>) -> bool,
}

impl RwLockPredicate<Option<ClassificationOutcome>> for SlotInvariant {
    open spec fn inv(self, v: Option<ClassificationOutcome>) -> bool {
        (self.ok)(opt_outcome_view(v))
    }
}

/// A single-slot mailbox: `None` until a first attempt completes, afterwards
/// the outcome of the most recently completed attempt. Writes overwrite
/// unconditionally; reads are non-blocking snapshots with no side effect, fit
/// for a per-frame poll.
pub struct ResultStore {
    slot: RwLock<Option<ClassificationOutcome>, SlotInvariant>,
}

impl ResultStore {
    /// The property every value held by this store satisfies: established
    /// for the initial emptiness at construction, required of every write,
    /// and guaranteed of every read.
    pub closed spec fn inv(&self) -> spec_fn(Option<OutcomeView>) -> bool {
        self.slot.pred().ok
    }

    /// An empty store enforcing `ok` on everything it will ever hold.
    pub fn new_with_invariant(Ghost(ok): Ghost<spec_fn(Option<OutcomeView>) -> bool>) -> (s: Self)
        requires
            ok(Option::<OutcomeView>::None),
        ensures
            s.inv() == ok,
    {
        let pred = Ghost(SlotInvariant { ok });
        ResultStore { slot: RwLock::new(None, pred) }
    }

    /// An empty store that accepts every outcome.
    pub fn new() -> (s: Self)
        ensures
            forall|v: Option<OutcomeView>| #[trigger] (s.inv())(v),
    {
        let ghost ok = |v: Option<OutcomeView>| true;
        Self::new_with_invariant(Ghost(ok))
    }

    /// Replace the stored value unconditionally with `outcome`. The writer is
    /// blocked only for the lock's critical section, never behind a reader's
    /// use of an earlier snapshot.
    pub fn write(&self, outcome: ClassificationOutcome)
        requires
            (self.inv())(Some(outcome@)),
    {
        let (_, handle) = self.slot.acquire_write();
        handle.release_write(Some(outcome));
    }

    /// A snapshot of the stored value: `None` if no attempt has completed
    /// yet, otherwise the outcome of the most recently completed attempt.
    pub fn read(&self) -> (r: Option<ClassificationOutcome>)
        ensures
            (self.inv())(opt_outcome_view(r)),
    {
        let handle = self.slot.acquire_read();
        let val = handle.borrow();
        let r = match val {
            None => None,
            Some(outcome) => Some(outcome.clone()),
        };
        proof {
            assert(opt_outcome_view(r) == opt_outcome_view(handle.view()));
        }
        handle.release_read();
        r
    }
}

} // verus!
