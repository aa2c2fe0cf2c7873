use std::collections::VecDeque;
use vstd::prelude::*;

verus! {

/// A unit of work for the worker thread: an application command, or the
/// sentinel that ends the loop.
#[derive(Debug)]
pub enum HwndLoopCommand<T> {
    Terminate,
    UserCommand(T),
}

/// The FIFO of commands shared by the producers and the worker. Producers
/// append at the back; the worker takes one entry from the front for each
/// command wake it receives.
pub struct CommandQueue<T> {
    items: VecDeque<HwndLoopCommand<T>>,
}

impl<T> View for CommandQueue<T> {
    type V = Seq<HwndLoopCommand<T>>;

    closed spec fn view(&self) -> Seq<HwndLoopCommand<T>> {
        self.items@
    }
}

impl<T> CommandQueue<T> {
    pub fn new() -> (q: Self)
        ensures
            q@ == Seq::<HwndLoopCommand<T>>::empty(),
    {
        CommandQueue { items: VecDeque::new() }
    }

    pub fn len(&self) -> (n: usize)
        ensures
            n == self@.len(),
    {
        self.items.len()
    }

    pub fn is_empty(&self) -> (b: bool)
        ensures
            b == (self@.len() == 0),
    {
        self.items.len() == 0
    }

    /// Appends `cmd` behind every command already queued.
    pub fn push(&mut self, cmd: HwndLoopCommand<T>)
        ensures
            final(self)@ == old(self)@.push(cmd),
    {
        self.items.push_back(cmd);
    }

    /// Appends an application command.
    pub fn submit(&mut self, cmd: T)
        ensures
            final(self)@ == old(self)@.push(HwndLoopCommand::UserCommand(cmd)),
    {
        self.items.push_back(HwndLoopCommand::UserCommand(cmd));
    }

    /// Appends the sentinel that ends the loop.
    pub fn submit_terminate(&mut self)
        ensures
            final(self)@ == old(self)@.push(HwndLoopCommand::Terminate),
    {
        self.items.push_back(HwndLoopCommand::Terminate);
    }

    /// Takes the oldest command, or nothing when the queue is empty.
    pub fn pop(&mut self) -> (r: Option<HwndLoopCommand<T>>)
        ensures
            old(self)@.len() == 0 ==> r is None && final(self)@ == old(self)@,
            old(self)@.len() > 0 ==> r == Some(old(self)@[0]) && final(self)@ == old(
                self,
            )@.drop_first(),
    {
        let r = self.items.pop_front();
        proof {
            if old(self)@.len() > 0 {
                assert(self@ =~= old(self)@.drop_first());
            }
        }
        r
    }
}

} // verus!
