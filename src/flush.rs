use std::collections::VecDeque;
use vstd::prelude::*;

verus! {

/// The pending flush barriers, oldest first. Each `flush` call appends one
/// completion signal and posts one flush wake; the worker completes the
/// oldest pending signal for each flush wake, so concurrent callers are
/// released in the order in which they asked.
pub struct FlushRequests<S> {
    pending: VecDeque<S>,
}

impl<S> View for FlushRequests<S> {
    type V = Seq<S>;

    closed spec fn view(&self) -> Seq<S> {
        self.pending@
    }
}

impl<S> FlushRequests<S> {
    pub fn new() -> (f: Self)
        ensures
            f@ == Seq::<S>::empty(),
    {
        FlushRequests { pending: VecDeque::new() }
    }

    pub fn len(&self) -> (n: usize)
        ensures
            n == self@.len(),
    {
        self.pending.len()
    }

    /// Registers a completion signal behind those already waiting.
    pub fn request(&mut self, signal: S)
        ensures
            final(self)@ == old(self)@.push(signal),
    {
        self.pending.push_back(signal);
    }

    /// Takes the oldest waiting signal, or nothing when none waits.
    pub fn take_oldest(&mut self) -> (r: Option<S>)
        ensures
            old(self)@.len() == 0 ==> r is None && final(self)@ == old(self)@,
            old(self)@.len() > 0 ==> r == Some(old(self)@[0]) && final(self)@ == old(
                self,
            )@.drop_first(),
    {
        let r = self.pending.pop_front();
        proof {
            if old(self)@.len() > 0 {
                assert(self@ =~= old(self)@.drop_first());
            }
        }
        r
    }
}

} // verus!
