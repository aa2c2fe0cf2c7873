use vstd::prelude::*;

verus! {

/// The once-only claim on termination: the "terminated" flag together with
/// the slot that holds the worker thread's join handle. Only the caller that
/// turns the flag from false to true receives the handle, and with it the
/// duty to enqueue the sentinel and join the worker.
pub struct TerminationSlot<J> {
    terminated: bool,
    join: Option<J>,
}

/// The abstract state of a slot: the flag, and the handle still held.
pub open spec fn slot_wf<J>(v: (bool, Option<J>)) -> bool {
    v.0 == (v.1 is None)
}

/// A claim: the slot afterwards and what the claimant receives.
pub open spec fn claim_step<J>(v: (bool, Option<J>)) -> ((bool, Option<J>), Option<J>) {
    if v.0 {
        (v, None)
    } else {
        ((true, None), v.1)
    }
}

impl<J> View for TerminationSlot<J> {
    type V = (bool, Option<J>);

    closed spec fn view(&self) -> (bool, Option<J>) {
        (self.terminated, self.join)
    }
}

impl<J> TerminationSlot<J> {
    pub fn new(join: J) -> (s: Self)
        ensures
            s@ == (false, Some(join)),
            slot_wf(s@),
    {
        TerminationSlot { terminated: false, join: Some(join) }
    }

    pub fn is_terminated(&self) -> (b: bool)
        ensures
            b == self@.0,
    {
        self.terminated
    }

    /// Sets the flag and hands out the join handle, to the first caller only.
    pub fn claim(&mut self) -> (r: Option<J>)
        ensures
            (final(self)@, r) == claim_step(old(self)@),
            slot_wf(old(self)@) ==> slot_wf(final(self)@),
            slot_wf(old(self)@) ==> (r is Some <==> !old(self)@.0),
    {
        if self.terminated {
            None
        } else {
            self.terminated = true;
            self.join.take()
        }
    }
}

/// Terminating twice, whether explicitly or once more when the handle is
/// dropped, hands the join handle out exactly once: the first claim on a live
/// slot receives it, the second receives nothing, and the slot stays
/// terminated.
pub proof fn lemma_terminate_once<J>(v: (bool, Option<J>))
    requires
        slot_wf(v),
        !v.0,
    ensures
        claim_step(v).1 is Some,
        claim_step(claim_step(v).0).1 is None,
        claim_step(claim_step(v).0).0.0,
{
}

/// On any well-formed slot, of two successive claims at most one receives
/// the join handle.
pub proof fn lemma_claim_at_most_once<J>(v: (bool, Option<J>))
    requires
        slot_wf(v),
    ensures
        !(claim_step(v).1 is Some && claim_step(claim_step(v).0).1 is Some),
        slot_wf(claim_step(v).0),
{
}

} // verus!
