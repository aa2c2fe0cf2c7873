use crate::command::{CommandQueue, HwndLoopCommand};
use crate::flush::FlushRequests;
use vstd::prelude::*;

verus! {

/// What a message retrieved by the worker means to the loop.
#[derive(Clone, Copy, PartialEq, Eq, Debug)]
pub enum Wake {
    /// The handshake message the worker posts to itself at startup.
    Init,
    /// A command was queued: take one from the command queue.
    Command,
    /// A flush was requested: release one waiting flush caller.
    Flush,
    /// Any other message, for the application's message handler.
    Other,
}

/// The three reserved message identifiers, registered once per process.
pub struct MessageTags {
    pub init: u32,
    pub command: u32,
    pub flush: u32,
}

impl MessageTags {
    pub open spec fn kind_of(self, msg: u32) -> Wake {
        if msg == self.init {
            Wake::Init
        } else if msg == self.command {
            Wake::Command
        } else if msg == self.flush {
            Wake::Flush
        } else {
            Wake::Other
        }
    }

    /// Tells the reserved messages apart from all others.
    pub fn classify(&self, msg: u32) -> (k: Wake)
        ensures
            k == self.kind_of(msg),
    {
        if msg == self.init {
            Wake::Init
        } else if msg == self.command {
            Wake::Command
        } else if msg == self.flush {
            Wake::Flush
        } else {
            Wake::Other
        }
    }
}

/// The life of a worker: `Created → Initializing → Running → Terminating →
/// Terminated`, never backwards.
#[derive(Clone, Copy, PartialEq, Eq, Debug)]
pub enum Phase {
    Created,
    Initializing,
    Running,
    Terminating,
    Terminated,
}

pub open spec fn rank(p: Phase) -> nat {
    match p {
        Phase::Created => 0,
        Phase::Initializing => 1,
        Phase::Running => 2,
        Phase::Terminating => 3,
        Phase::Terminated => 4,
    }
}

/// Whether the worker is inside its retrieval loop, with the callbacks set
/// up and installed.
pub open spec fn in_loop(p: Phase) -> bool {
    p is Initializing || p is Running
}

/// What the worker thread must do next.
#[derive(Debug)]
pub enum Action<T, S> {
    /// Call `set_up` and install the callbacks.
    SetUp,
    /// Hand the native handle and the shared state to the constructing thread.
    Handshake,
    /// Call `handle_command` with this command.
    HandleCommand(T),
    /// Signal this flush caller.
    CompleteFlush(S),
    /// Pass the message to the application's message handler.
    Dispatch,
    /// Leave the retrieval loop.
    Exit,
    /// Call `tear_down`, detach and drop the callbacks, destroy the receiver.
    TearDown,
    /// Nothing to do.
    Ignore,
}

/// Whether an action runs application code that handles work.
pub open spec fn is_handler<T, S>(a: Action<T, S>) -> bool {
    a is HandleCommand || a is CompleteFlush || a is Dispatch
}

/// The three ways in which the worker is driven.
pub enum Call {
    /// The receiver exists: start the loop.
    Begin,
    /// A message was retrieved.
    Message(Wake),
    /// The loop was left: shut down.
    ShutDown,
}

/// One retrieved message: the next phase, queue and flush list, and the action.
pub open spec fn message_step<T, S>(
    p: Phase,
    k: Wake,
    q: Seq<HwndLoopCommand<T>>,
    f: Seq<S>,
) -> (Phase, Seq<HwndLoopCommand<T>>, Seq<S>, Action<T, S>) {
    if !in_loop(p) {
        (p, q, f, Action::Ignore)
    } else {
        match k {
            Wake::Init => if p is Initializing {
                (Phase::Running, q, f, Action::Handshake)
            } else {
                (p, q, f, Action::Ignore)
            },
            Wake::Command => if q.len() == 0 {
                (p, q, f, Action::Ignore)
            } else {
                match q[0] {
                    HwndLoopCommand::Terminate => (
                        Phase::Terminating,
                        q.drop_first(),
                        f,
                        Action::Exit,
                    ),
                    HwndLoopCommand::UserCommand(c) => (
                        p,
                        q.drop_first(),
                        f,
                        Action::HandleCommand(c),
                    ),
                }
            },
            Wake::Flush => if f.len() == 0 {
                (p, q, f, Action::Ignore)
            } else {
                (p, q, f.drop_first(), Action::CompleteFlush(f[0]))
            },
            Wake::Other => (p, q, f, Action::Dispatch),
        }
    }
}

/// One step of the worker, whichever way it is driven.
pub open spec fn worker_step<T, S>(
    p: Phase,
    c: Call,
    q: Seq<HwndLoopCommand<T>>,
    f: Seq<S>,
) -> (Phase, Seq<HwndLoopCommand<T>>, Seq<S>, Action<T, S>) {
    match c {
        Call::Begin => if p is Created {
            (Phase::Initializing, q, f, Action::SetUp)
        } else {
            (p, q, f, Action::Ignore)
        },
        Call::Message(k) => message_step(p, k, q, f),
        Call::ShutDown => if p is Terminating {
            (Phase::Terminated, q, f, Action::TearDown)
        } else {
            (p, q, f, Action::Ignore)
        },
    }
}

/// The decisions of the worker thread. The thread that owns it performs the
/// actions it returns.
pub struct Worker {
    phase: Phase,
}

impl Worker {
    pub closed spec fn phase(&self) -> Phase {
        self.phase
    }

    pub fn new() -> (w: Self)
        ensures
            w.phase() is Created,
    {
        Worker { phase: Phase::Created }
    }

    pub fn is_running(&self) -> (b: bool)
        ensures
            b == in_loop(self.phase()),
    {
        match self.phase {
            Phase::Initializing | Phase::Running => true,
            _ => false,
        }
    }

    /// Called once the native receiver exists; asks for `set_up` the first time.
    pub fn begin<T, S>(&mut self) -> (a: Action<T, S>)
        ensures
            (final(self).phase(), a) == ({
                let st = worker_step::<T, S>(old(self).phase(), Call::Begin, seq![], seq![]);
                (st.0, st.3)
            }),
    {
        match self.phase {
            Phase::Created => {
                self.phase = Phase::Initializing;
                Action::SetUp
            },
            _ => Action::Ignore,
        }
    }

    /// Decides what a retrieved message means, taking from the command queue
    /// or the flush list what it consumes.
    pub fn on_message<T, S>(
        &mut self,
        kind: Wake,
        queue: &mut CommandQueue<T>,
        flushes: &mut FlushRequests<S>,
    ) -> (a: Action<T, S>)
        ensures
            (final(self).phase(), final(queue)@, final(flushes)@, a) == worker_step(
                old(self).phase(),
                Call::Message(kind),
                old(queue)@,
                old(flushes)@,
            ),
    {
        let looping = match self.phase {
            Phase::Initializing | Phase::Running => true,
            _ => false,
        };
        if !looping {
            return Action::Ignore;
        }
        match kind {
            Wake::Init => {
                match self.phase {
                    Phase::Initializing => {
                        self.phase = Phase::Running;
                        Action::Handshake
                    },
                    _ => Action::Ignore,
                }
            },
            Wake::Command => {
                match queue.pop() {
                    None => Action::Ignore,
                    Some(HwndLoopCommand::Terminate) => {
                        self.phase = Phase::Terminating;
                        Action::Exit
                    },
                    Some(HwndLoopCommand::UserCommand(c)) => Action::HandleCommand(c),
                }
            },
            Wake::Flush => {
                match flushes.take_oldest() {
                    None => Action::Ignore,
                    Some(s) => Action::CompleteFlush(s),
                }
            },
            Wake::Other => Action::Dispatch,
        }
    }

    /// Called after the loop was left; asks for the teardown sequence once.
    pub fn shut_down<T, S>(&mut self) -> (a: Action<T, S>)
        ensures
            (final(self).phase(), a) == ({
                let st = worker_step::<T, S>(old(self).phase(), Call::ShutDown, seq![], seq![]);
                (st.0, st.3)
            }),
    {
        match self.phase {
            Phase::Terminating => {
                self.phase = Phase::Terminated;
                Action::TearDown
            },
            _ => Action::Ignore,
        }
    }
}

/// The phase reached and the actions taken when a worker in phase `p` is
/// driven by `calls`, each seeing whatever the command queue and the flush
/// list hold at that moment.
pub open spec fn trace<T, S>(
    p: Phase,
    calls: Seq<(Call, Seq<HwndLoopCommand<T>>, Seq<S>)>,
) -> (Phase, Seq<Action<T, S>>)
    decreases calls.len(),
{
    if calls.len() == 0 {
        (p, Seq::empty())
    } else {
        let prev = trace(p, calls.drop_last());
        let c = calls.last();
        let st = worker_step(prev.0, c.0, c.1, c.2);
        (st.0, prev.1.push(st.3))
    }
}

/// A fresh worker's callbacks live inside `set_up` and `tear_down`, however it
/// is driven: `set_up` comes at most once and before any handled command,
/// message or flush; once the loop is left nothing more is handled; and
/// `tear_down` comes at most once, with nothing at all after it.
pub proof fn lemma_lifecycle_order<T, S>(calls: Seq<(Call, Seq<HwndLoopCommand<T>>, Seq<S>)>)
    ensures
        ({
            let (ph, tr) = trace(Phase::Created, calls);
            &&& forall|j: int|
                0 <= j < tr.len() && is_handler(#[trigger] tr[j]) ==> exists|i: int|
                    0 <= i < j && #[trigger] tr[i] is SetUp
            &&& forall|i: int, j: int|
                0 <= i < j < tr.len() && #[trigger] tr[i] is SetUp ==> !(#[trigger] tr[j] is SetUp)
            &&& forall|i: int, j: int|
                0 <= i < j < tr.len() && #[trigger] tr[i] is Exit ==> !is_handler(
                    #[trigger] tr[j],
                )
            &&& forall|i: int, j: int|
                0 <= i < j < tr.len() && #[trigger] tr[i] is TearDown ==> #[trigger] tr[j] is Ignore
            &&& (exists|i: int| 0 <= i < tr.len() && #[trigger] tr[i] is SetUp) <==> rank(ph) >= 1
            &&& (exists|i: int| 0 <= i < tr.len() && #[trigger] tr[i] is Exit) ==> rank(ph) >= 3
            &&& (exists|i: int| 0 <= i < tr.len() && #[trigger] tr[i] is TearDown) ==> ph is Terminated
        }),
    decreases calls.len(),
{
    if calls.len() > 0 {
        let prev = calls.drop_last();
        lemma_lifecycle_order(prev);
        let (p0, tr0) = trace(Phase::Created, prev);
        let (ph, tr) = trace(Phase::Created, calls);
        let n = tr0.len() as int;
        assert(tr.len() == n + 1);
        assert forall|i: int| 0 <= i < n implies tr[i] == tr0[i] by {}
        let a = tr[n];
        if exists|i: int| 0 <= i < tr.len() && #[trigger] tr[i] is SetUp {
            let i = choose|i: int| 0 <= i < tr.len() && #[trigger] tr[i] is SetUp;
            if i < n {
                assert(tr0[i] is SetUp);
            }
        }
        if rank(p0) >= 1 {
            let i = choose|i: int| 0 <= i < n && #[trigger] tr0[i] is SetUp;
            assert(tr[i] is SetUp);
        }
        if exists|i: int| 0 <= i < tr.len() && #[trigger] tr[i] is Exit {
            let i = choose|i: int| 0 <= i < tr.len() && #[trigger] tr[i] is Exit;
            if i < n {
                assert(tr0[i] is Exit);
            }
        }
        if exists|i: int| 0 <= i < tr.len() && #[trigger] tr[i] is TearDown {
            let i = choose|i: int| 0 <= i < tr.len() && #[trigger] tr[i] is TearDown;
            if i < n {
                assert(tr0[i] is TearDown);
            }
        }
        assert forall|j: int| 0 <= j < tr.len() && is_handler(#[trigger] tr[j]) implies exists|
            i: int,
        | 0 <= i < j && #[trigger] tr[i] is SetUp by {
            if j < n {
                assert(is_handler(tr0[j]));
                let i = choose|i: int| 0 <= i < j && #[trigger] tr0[i] is SetUp;
                assert(tr[i] is SetUp);
            } else {
                let i = choose|i: int| 0 <= i < n && #[trigger] tr0[i] is SetUp;
                assert(tr[i] is SetUp);
            }
        }
        assert forall|i: int, j: int|
            0 <= i < j < tr.len() && #[trigger] tr[i] is SetUp implies !(#[trigger] tr[j] is SetUp) by {
            assert(tr0[i] is SetUp);
        }
        assert forall|i: int, j: int|
            0 <= i < j < tr.len() && #[trigger] tr[i] is Exit implies !is_handler(#[trigger] tr[j]) by {
            assert(tr0[i] is Exit);
        }
        assert forall|i: int, j: int|
            0 <= i < j < tr.len() && #[trigger] tr[i] is TearDown implies #[trigger] tr[j] is Ignore by {
            assert(tr0[i] is TearDown);
        }
    }
}

} // verus!
