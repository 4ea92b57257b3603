//! The request dispatcher: the bridge from a discrete user trigger to one
//! asynchronous classification attempt, and from its completion back into the
//! result store.
//!
//! Policy: a trigger while an attempt is already in flight is ignored, and a
//! trigger with an empty prompt is a no-op; [`RequestDispatcher::is_busy`]
//! exposes the in-flight state. The caller runs the round trip for each
//! request this component hands out, and reports the outcome back through
//! [`RequestDispatcher::finish`], which writes the store exactly once per
//! attempt and accepts triggers again.

use vstd::prelude::*;
use crate::error::ClassificationOutcome;
use crate::store::ResultStore;

verus! {

/// An owned, immutable snapshot of the user's free-text description, taken
/// at trigger time: later edits to the prompt do not affect an attempt that
/// is already in flight.
pub struct ClassificationRequest {
    prompt: String,
}

impl View for ClassificationRequest {
    type V = Seq<char>;

    closed spec fn view(&self) -> Seq<char> {
        self.prompt@
    }
}

impl ClassificationRequest {
    /// The prompt text as it stood when the trigger fired.
    pub fn prompt(&self) -> (r: &String)
        ensures
            r@ == self@,
    {
        &self.prompt
    }
}

/// The dispatcher's decision state. One value serves one trigger source; the
/// store it writes through may be shared with any number of readers.
pub struct RequestDispatcher {
    busy: bool,
}

impl RequestDispatcher {
    /// Whether a classification attempt is currently in flight.
    pub closed spec fn in_flight(&self) -> bool {
        self.busy
    }

    /// A dispatcher with no attempt in flight.
    pub fn new() -> (d: Self)
        ensures
            !d.in_flight(),
    {
        RequestDispatcher { busy: false }
    }

    /// Whether a classification attempt is currently in flight.
    pub fn is_busy(&self) -> (b: bool)
        ensures
            b == self.in_flight(),
    {
        self.busy
    }

    /// The decision on a trigger: if no attempt is in flight and the prompt
    /// is non-empty, hand out a request carrying a snapshot of the prompt and
    /// become busy; otherwise ignore the trigger and change nothing. Never
    /// panics, also on an empty prompt.
    pub fn try_begin(&mut self, prompt: &String) -> (r: Option<ClassificationRequest>)
        ensures
            (old(self).in_flight() || prompt@.len() == 0) ==> r is None && final(self).in_flight()
                == old(self).in_flight(),
            (!old(self).in_flight() && prompt@.len() > 0) ==> final(self).in_flight() && (
            r matches Some(req) && req@ == prompt@),
    {
        if self.busy || prompt.as_str().is_empty() {
            None
        } else {
            self.busy = true;
            Some(ClassificationRequest { prompt: prompt.clone() })
        }
    }

    /// The decision on a completion: write the attempt's outcome — success or
    /// failure alike — into the store, overwriting any prior value, and
    /// accept triggers again.
    pub fn finish(&mut self, store: &ResultStore, outcome: ClassificationOutcome)
        requires
            (store.inv())(Some(outcome@)),
        ensures
            !final(self).in_flight(),
    {
        store.write(outcome);
        self.busy = false;
    }
}

} // verus!
