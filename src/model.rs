use crate::command::HwndLoopCommand;
use crate::worker::{message_step, Action, Phase, Wake};
use vstd::prelude::*;

verus! {

/// A message in the native receiver, which delivers in posting order.
pub enum Posted<M> {
    Init,
    CommandWake,
    FlushWake,
    Raw(M),
}

pub open spec fn wake_of<M>(m: Posted<M>) -> Wake {
    match m {
        Posted::Init => Wake::Init,
        Posted::CommandWake => Wake::Command,
        Posted::FlushWake => Wake::Flush,
        Posted::Raw(_) => Wake::Other,
    }
}

/// An operation of a producer thread: submit a command, post a raw message,
/// or request a flush with a completion signal.
pub enum Op<T, M, S> {
    Submit(T),
    Post(M),
    Flush(S),
}

/// What the worker thread does with the application's work, in order.
pub enum Event<T, M, S> {
    Command(T),
    Message(M),
    Flushed(S),
}

pub open spec fn event_of<T, M, S>(op: Op<T, M, S>) -> Event<T, M, S> {
    match op {
        Op::Submit(c) => Event::Command(c),
        Op::Post(m) => Event::Message(m),
        Op::Flush(s) => Event::Flushed(s),
    }
}

pub open spec fn events_of<T, M, S>(ops: Seq<Op<T, M, S>>) -> Seq<Event<T, M, S>> {
    ops.map_values(|op: Op<T, M, S>| event_of(op))
}

/// The shared state of a running loop: the worker's phase, the receiver's
/// messages, the command queue, the flush list, and what was handled so far.
pub struct LoopState<T, M, S> {
    pub phase: Phase,
    pub channel: Seq<Posted<M>>,
    pub queue: Seq<HwndLoopCommand<T>>,
    pub flushes: Seq<S>,
    pub observed: Seq<Event<T, M, S>>,
}

/// A producer's operation: what it appends to the shared lists and which
/// wake it posts. The append and the post happen under the list's lock, so
/// the order of wakes in the receiver and the order of the list agree.
pub open spec fn produce<T, M, S>(s: LoopState<T, M, S>, op: Op<T, M, S>) -> LoopState<
    T,
    M,
    S,
> {
    match op {
        Op::Submit(c) => LoopState {
            queue: s.queue.push(HwndLoopCommand::UserCommand(c)),
            channel: s.channel.push(Posted::CommandWake),
            ..s
        },
        Op::Post(m) => LoopState { channel: s.channel.push(Posted::Raw(m)), ..s },
        Op::Flush(sig) => LoopState {
            flushes: s.flushes.push(sig),
            channel: s.channel.push(Posted::FlushWake),
            ..s
        },
    }
}

/// What the application sees of an action taken for a retrieved message.
pub open spec fn observed_by<T, M, S>(a: Action<T, S>, m: Posted<M>) -> Seq<Event<T, M, S>> {
    match a {
        Action::HandleCommand(c) => seq![Event::Command(c)],
        Action::CompleteFlush(sig) => seq![Event::Flushed(sig)],
        Action::Dispatch => match m {
            Posted::Raw(x) => seq![Event::Message(x)],
            _ => Seq::empty(),
        },
        _ => Seq::empty(),
    }
}

/// The worker retrieves the oldest message and acts on it, as `message_step` decides.
pub open spec fn consume<T, M, S>(s: LoopState<T, M, S>) -> LoopState<T, M, S> {
    if s.channel.len() == 0 {
        s
    } else {
        let m = s.channel[0];
        let st = message_step(s.phase, wake_of(m), s.queue, s.flushes);
        LoopState {
            phase: st.0,
            channel: s.channel.drop_first(),
            queue: st.1,
            flushes: st.2,
            observed: s.observed + observed_by(st.3, m),
        }
    }
}

/// One step of a schedule: a producer operation, or a retrieval by the worker.
pub open spec fn sched_step<T, M, S>(s: LoopState<T, M, S>, e: Option<Op<T, M, S>>) -> LoopState<
    T,
    M,
    S,
> {
    match e {
        Some(op) => produce(s, op),
        None => consume(s),
    }
}

/// A schedule run from a state.
pub open spec fn run<T, M, S>(s: LoopState<T, M, S>, sched: Seq<Option<Op<T, M, S>>>) -> LoopState<
    T,
    M,
    S,
>
    decreases sched.len(),
{
    if sched.len() == 0 {
        s
    } else {
        sched_step(run(s, sched.drop_last()), sched.last())
    }
}

/// The producer's operations in a schedule, in order.
pub open spec fn ops_of<T, M, S>(sched: Seq<Option<Op<T, M, S>>>) -> Seq<Op<T, M, S>>
    decreases sched.len(),
{
    if sched.len() == 0 {
        Seq::empty()
    } else {
        match sched.last() {
            Some(op) => ops_of(sched.drop_last()).push(op),
            None => ops_of(sched.drop_last()),
        }
    }
}

/// A loop that has completed its handshake, with nothing submitted yet.
pub open spec fn fresh_running<T, M, S>() -> LoopState<T, M, S> {
    LoopState {
        phase: Phase::Running,
        channel: Seq::empty(),
        queue: Seq::empty(),
        flushes: Seq::empty(),
        observed: Seq::empty(),
    }
}

/// The receiver's messages agree with the shared lists: one queued user
/// command per command wake, one flush signal per flush wake, in order.
pub open spec fn consistent<T, M, S>(
    ch: Seq<Posted<M>>,
    q: Seq<HwndLoopCommand<T>>,
    f: Seq<S>,
) -> bool
    decreases ch.len(),
{
    if ch.len() == 0 {
        q.len() == 0 && f.len() == 0
    } else {
        match ch[0] {
            Posted::CommandWake => q.len() > 0 && q[0] is UserCommand && consistent(
                ch.drop_first(),
                q.drop_first(),
                f,
            ),
            Posted::FlushWake => f.len() > 0 && consistent(ch.drop_first(), q, f.drop_first()),
            _ => consistent(ch.drop_first(), q, f),
        }
    }
}

/// The events that the messages still in the receiver will produce.
pub open spec fn pending<T, M, S>(
    ch: Seq<Posted<M>>,
    q: Seq<HwndLoopCommand<T>>,
    f: Seq<S>,
) -> Seq<Event<T, M, S>>
    decreases ch.len(),
{
    if ch.len() == 0 {
        Seq::empty()
    } else {
        match ch[0] {
            Posted::CommandWake => if q.len() > 0 {
                match q[0] {
                    HwndLoopCommand::UserCommand(c) => seq![Event::Command(c)] + pending(
                        ch.drop_first(),
                        q.drop_first(),
                        f,
                    ),
                    HwndLoopCommand::Terminate => Seq::empty(),
                }
            } else {
                Seq::empty()
            },
            Posted::FlushWake => if f.len() > 0 {
                seq![Event::Flushed(f[0])] + pending(ch.drop_first(), q, f.drop_first())
            } else {
                Seq::empty()
            },
            Posted::Raw(x) => seq![Event::Message(x)] + pending(ch.drop_first(), q, f),
            Posted::Init => pending(ch.drop_first(), q, f),
        }
    }
}

proof fn lemma_produce_pending<T, M, S>(s: LoopState<T, M, S>, op: Op<T, M, S>)
    requires
        consistent(s.channel, s.queue, s.flushes),
    ensures
        ({
            let t = produce(s, op);
            &&& consistent(t.channel, t.queue, t.flushes)
            &&& pending(t.channel, t.queue, t.flushes) == pending(
                s.channel,
                s.queue,
                s.flushes,
            ).push(event_of(op))
        }),
    decreases s.channel.len(),
{
    let t = produce(s, op);
    if s.channel.len() == 0 {
        let e = Seq::<Event<T, M, S>>::empty();
        assert(t.channel.drop_first() =~= Seq::<Posted<M>>::empty());
        match op {
            Op::Submit(c) => {
                assert(t.queue.drop_first() =~= Seq::<HwndLoopCommand<T>>::empty());
                assert(pending(t.channel.drop_first(), t.queue.drop_first(), t.flushes) == e);
                assert(consistent(t.channel.drop_first(), t.queue.drop_first(), t.flushes));
            },
            Op::Flush(sig) => {
                assert(t.flushes.drop_first() =~= Seq::<S>::empty());
                assert(pending(t.channel.drop_first(), t.queue, t.flushes.drop_first()) == e);
                assert(consistent(t.channel.drop_first(), t.queue, t.flushes.drop_first()));
            },
            Op::Post(m) => {
                assert(pending(t.channel.drop_first(), t.queue, t.flushes) == e);
                assert(consistent(t.channel.drop_first(), t.queue, t.flushes));
            },
        }
        assert(pending(t.channel, t.queue, t.flushes) =~= seq![event_of(op)]);
        assert(consistent(t.channel, t.queue, t.flushes));
    } else {
        let h = s.channel[0];
        assert(t.channel[0] == h);
        match h {
            Posted::CommandWake => {
                let s1 = LoopState {
                    channel: s.channel.drop_first(),
                    queue: s.queue.drop_first(),
                    ..s
                };
                lemma_produce_pending(s1, op);
                let t1 = produce(s1, op);
                assert(t.channel.drop_first() =~= t1.channel);
                assert(t.queue.drop_first() =~= t1.queue);
                assert(t.queue[0] == s.queue[0]);
                assert(t.flushes =~= t1.flushes);
            },
            Posted::FlushWake => {
                let s1 = LoopState {
                    channel: s.channel.drop_first(),
                    flushes: s.flushes.drop_first(),
                    ..s
                };
                lemma_produce_pending(s1, op);
                let t1 = produce(s1, op);
                assert(t.channel.drop_first() =~= t1.channel);
                assert(t.flushes.drop_first() =~= t1.flushes);
                assert(t.flushes[0] == s.flushes[0]);
                assert(t.queue =~= t1.queue);
            },
            _ => {
                let s1 = LoopState { channel: s.channel.drop_first(), ..s };
                lemma_produce_pending(s1, op);
                let t1 = produce(s1, op);
                assert(t.channel.drop_first() =~= t1.channel);
                assert(t.flushes =~= t1.flushes);
                assert(t.queue =~= t1.queue);
            },
        }
        assert(consistent(t.channel, t.queue, t.flushes));
        assert(pending(t.channel, t.queue, t.flushes) =~= pending(
            s.channel,
            s.queue,
            s.flushes,
        ).push(event_of(op)));
    }
}

proof fn lemma_consume_pending<T, M, S>(s: LoopState<T, M, S>)
    requires
        s.phase is Running,
        consistent(s.channel, s.queue, s.flushes),
    ensures
        ({
            let t = consume(s);
            &&& t.phase is Running
            &&& consistent(t.channel, t.queue, t.flushes)
            &&& t.observed + pending(t.channel, t.queue, t.flushes) == s.observed + pending(
                s.channel,
                s.queue,
                s.flushes,
            )
        }),
{
    let t = consume(s);
    if s.channel.len() > 0 {
        let rest = s.channel.drop_first();
        match s.channel[0] {
            Posted::CommandWake => {
                let c = s.queue[0]->UserCommand_0;
                assert(t.observed + pending(t.channel, t.queue, t.flushes) =~= s.observed + (
                seq![Event::Command(c)] + pending(rest, s.queue.drop_first(), s.flushes)));
            },
            Posted::FlushWake => {
                assert(t.observed + pending(t.channel, t.queue, t.flushes) =~= s.observed + (
                seq![Event::Flushed(s.flushes[0])] + pending(rest, s.queue, s.flushes.drop_first())));
            },
            Posted::Raw(x) => {
                assert(t.observed + pending(t.channel, t.queue, t.flushes) =~= s.observed + (
                seq![Event::Message(x)] + pending(rest, s.queue, s.flushes)));
            },
            Posted::Init => {
                assert(t.observed =~= s.observed);
            },
        }
    }
}

proof fn lemma_run_pending<T, M, S>(sched: Seq<Option<Op<T, M, S>>>)
    ensures
        ({
            let t = run(fresh_running(), sched);
            &&& t.phase is Running
            &&& consistent(t.channel, t.queue, t.flushes)
            &&& t.observed + pending(t.channel, t.queue, t.flushes) == events_of(ops_of(sched))
        }),
    decreases sched.len(),
{
    let t = run(fresh_running::<T, M, S>(), sched);
    if sched.len() == 0 {
        assert(t.observed + pending(t.channel, t.queue, t.flushes) =~= events_of(ops_of(sched)));
    } else {
        let prev = sched.drop_last();
        lemma_run_pending(prev);
        let t0 = run(fresh_running::<T, M, S>(), prev);
        match sched.last() {
            Some(op) => {
                lemma_produce_pending(t0, op);
                assert(events_of(ops_of(sched)) =~= events_of(ops_of(prev)).push(event_of(op)));
                assert(t.observed + pending(t.channel, t.queue, t.flushes) =~= (t0.observed
                    + pending(t0.channel, t0.queue, t0.flushes)).push(event_of(op)));
            },
            None => {
                lemma_consume_pending(t0);
            },
        }
    }
}

/// One producer that interleaves raw posts, command submissions and flush
/// requests sees the worker handle all of them in exactly its own order,
/// whatever the worker's pace: at every moment what was handled is a prefix
/// of the producer's operations, and once the receiver is drained it is all
/// of them.
pub proof fn lemma_interleaving_preserved<T, M, S>(sched: Seq<Option<Op<T, M, S>>>)
    ensures
        ({
            let t = run(fresh_running(), sched);
            let ev = events_of(ops_of(sched));
            &&& t.observed.len() <= ev.len()
            &&& t.observed == ev.subrange(0, t.observed.len() as int)
            &&& t.channel.len() == 0 ==> t.observed == ev
        }),
{
    lemma_run_pending(sched);
    let t = run(fresh_running::<T, M, S>(), sched);
    let p = pending(t.channel, t.queue, t.flushes);
    assert((t.observed + p).subrange(0, t.observed.len() as int) =~= t.observed);
    if t.channel.len() == 0 {
        assert(t.observed + p =~= t.observed);
    }
}

/// Commands submitted by one thread reach `handle_command` in submission
/// order, for any number of them: what was handled is always a prefix of the
/// submitted commands, and all of them once the receiver is drained.
pub proof fn lemma_commands_in_order<T, M, S>(sched: Seq<Option<Op<T, M, S>>>, cmds: Seq<T>)
    requires
        ops_of(sched) == cmds.map_values(|c: T| Op::<T, M, S>::Submit(c)),
    ensures
        ({
            let t = run(fresh_running(), sched);
            let handled = cmds.map_values(|c: T| Event::<T, M, S>::Command(c));
            &&& t.observed == handled.subrange(0, t.observed.len() as int)
            &&& t.channel.len() == 0 ==> t.observed == handled
        }),
{
    lemma_interleaving_preserved(sched);
    assert(events_of(ops_of(sched)) =~= cmds.map_values(|c: T| Event::<T, M, S>::Command(c)));
}

/// A flush requested after K commands is released only after all K were
/// handled: when the K-th handled event (counting from zero) has happened,
/// it is the release of that flush, and the events before it are the K
/// commands in order.
pub proof fn lemma_flush_barrier<T, M, S>(
    sched: Seq<Option<Op<T, M, S>>>,
    cmds: Seq<T>,
    sig: S,
)
    requires
        ops_of(sched).len() > cmds.len(),
        ops_of(sched).subrange(0, cmds.len() as int) == cmds.map_values(
            |c: T| Op::<T, M, S>::Submit(c),
        ),
        ops_of(sched)[cmds.len() as int] == Op::<T, M, S>::Flush(sig),
    ensures
        ({
            let t = run(fresh_running(), sched);
            t.observed.len() > cmds.len() ==> {
                &&& t.observed[cmds.len() as int] == Event::<T, M, S>::Flushed(sig)
                &&& t.observed.subrange(0, cmds.len() as int) == cmds.map_values(
                    |c: T| Event::<T, M, S>::Command(c),
                )
            }
        }),
{
    lemma_interleaving_preserved(sched);
    let t = run(fresh_running::<T, M, S>(), sched);
    let ops = ops_of(sched);
    let k = cmds.len() as int;
    if t.observed.len() > k {
        assert(t.observed[k] == events_of(ops)[k]);
        assert forall|i: int| 0 <= i < k implies t.observed[i] == cmds.map_values(
            |c: T| Event::<T, M, S>::Command(c),
        )[i] by {
            assert(t.observed[i] == events_of(ops)[i]);
            assert(ops[i] == ops.subrange(0, k)[i]);
        }
        assert(t.observed.subrange(0, k) =~= cmds.map_values(
            |c: T| Event::<T, M, S>::Command(c),
        ));
    }
}

} // verus!
