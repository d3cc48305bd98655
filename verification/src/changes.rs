//! What can happen to the loop, step by step.
use vstd::multiset::Multiset;
use vstd::prelude::*;

use std::any::TypeId;

use crate::event_loop::{gens, live, Loop};
use crate::handle::{Handle, IoId, TimeoutId};
use crate::loop_run::Step;
use crate::loop_signal::signal_tasks;
use crate::loop_timers::{fires, not_over, over, timeout_task};
use crate::signal::{ChildExit, Signal};
use crate::task::{
    for_one_of, id_queued, id_weight, lemma_id_push, lemma_stored_insert,
    lemma_stored_subset, no_timeouts, stored, waiting, with_id, Task, TaskParam,
};
use crate::timers::TimeoutHolder;

verus! {

/// A change of the loop.
///
/// Every operation of the loop is made of these, one after another. So is a callback: the event is
/// taken, then whatever the callback does happens and then the event is returned or killed.
pub enum Change<Ev, D, Io> {
    /// An event was inserted.
    Inserted { handle: Handle, event: Ev },
    /// The event was taken out for a callback.
    Taken { handle: Handle, event: Ev },
    /// The event was returned after its callback and lives on.
    Returned { handle: Handle, event: Ev },
    /// The event was killed.
    Killed { handle: Handle },
    /// The event got a timeout.
    TimeoutAdded { handle: Handle, when: i128, id: TimeoutId },
    /// The event got an IO.
    IoAdded { handle: Handle, io: Io, io_id: IoId },
    /// The event gave its IO up.
    IoRemoved { handle: Handle, io_id: IoId },
    /// The IO of the event changed.
    IoChanged { handle: Handle, io: Io, io_id: IoId },
    /// The event expects a type of messages.
    Expected { handle: Handle, tp: TypeId },
    /// The event tracks a child.
    ChildAdded { handle: Handle, pid: i32 },
    /// A tracked child terminated.
    ChildExited { pid: i32, exit: ChildExit },
    /// Something else than a timeout was put into the queue.
    Scheduled(Task<D>),
    /// Everyone interested is going to be told about the signal.
    SignalDelivered(Signal),
    /// Some timeouts of dead events were dropped.
    Pruned,
    /// These timeouts were put into the queue.
    Fired(Seq<TimeoutHolder>),
    /// Gathering of tasks started.
    GatherStarted,
    /// Gathering of tasks finished and these timeouts were put into the queue.
    Gathered(Seq<TimeoutHolder>),
    /// A task was taken from the queue.
    Ran(Step<Ev, D>),
    /// The event is interested in a signal.
    SignalAdded { handle: Handle, signal: Signal },
    /// The event wants to be called once the loop is idle.
    IdleAdded { handle: Handle },
    /// The events, what they registered for, the timeouts and the queue were left alone.
    Aside,
}

impl<Ev, D, Io> Change<Ev, D, Io> {
    /// The event is told about the timeout.
    pub open spec fn tells(self, handle: Handle, id: TimeoutId) -> bool {
        match self {
            Change::Ran(Step::Call { handle: h, event: _, param }) => h == handle && param
                == TaskParam::<D>::Timeout(id),
            _ => false,
        }
    }
}

impl<Context, Ev, D, Io> Loop<Context, Ev, D, Io> {
    /// The change leads from one state of the loop to the other one.
    pub open spec fn happened(pre: Self, post: Self, change: Change<Ev, D, Io>) -> bool {
        match change {
            Change::Inserted { handle, event } => Self::inserted(pre, post, event, handle),
            Change::Taken { handle, event } => Self::taken(pre, post, handle, event),
            Change::Returned { handle, event } => Self::returned(pre, post, handle, event),
            Change::Killed { handle } => pre.alive(handle) && Self::killed(pre, post, handle),
            Change::TimeoutAdded { handle, when, id } => pre.alive(handle) && Self::timeout_added(
                pre,
                post,
                handle,
                when,
                id,
            ),
            Change::IoAdded { handle, io, io_id } => pre.alive(handle) && Self::io_added(
                pre,
                post,
                handle,
                io,
                io_id,
            ),
            Change::IoRemoved { handle, io_id } => pre.owns_io(handle, io_id) && Self::io_removed(
                pre,
                post,
                handle,
                io_id,
            ),
            Change::IoChanged { handle, io, io_id } => pre.owns_io(handle, io_id)
                && Self::io_changed(
                pre,
                post,
                handle,
                io_id,
                io,
            ),
            Change::Expected { handle, tp } => pre.alive(handle) && Self::expected(
                pre,
                post,
                handle,
                tp,
            ),
            Change::ChildAdded { handle, pid } => {
                &&& pre.alive(handle)
                &&& !pre.children@.dom().contains(pid)
                &&& Self::child_added(pre, post, handle, pid)
            },
            Change::ChildExited { pid, exit } => Self::child_exited(pre, post, pid, exit),
            Change::Scheduled(task) => {
                &&& (post == Loop { scheduled: post.scheduled, ..pre })
                &&& post.scheduled@ == pre.scheduled@.push(task)
                &&& !(task.param is Timeout)
            },
            Change::SignalDelivered(signal) => {
                &&& (post == Loop { scheduled: post.scheduled, ..pre })
                &&& post.scheduled@ == pre.scheduled@ + signal_tasks(
                    pre.signal_recipients@,
                    signal,
                )
            },
            Change::Pruned => {
                &&& (post == Loop {
                    timeouts: post.timeouts,
                    timeouts_dead: post.timeouts_dead,
                    timeouts_fired: post.timeouts_fired,
                    timeouts_inserted: post.timeouts_inserted,
                    ..pre
                })
                &&& post.timeouts@.subset_of(pre.timeouts@)
                &&& post.timeouts@.filter(for_one_of(live(gens(pre.events@))))
                    == pre.timeouts@.filter(for_one_of(live(gens(pre.events@))))
            },
            Change::Fired(fired) => {
                &&& (post == Loop { timeouts: post.timeouts, scheduled: post.scheduled, ..pre })
                &&& post.timeouts@ == pre.timeouts@.filter(not_over(pre.now))
                &&& fires(pre.timeouts@, pre.now, fired)
                &&& post.scheduled@ == pre.scheduled@ + fired.map_values(timeout_task())
            },
            Change::GatherStarted => Self::gather_started(pre, post),
            Change::Gathered(fired) => no_timeouts(pre.scheduled@) && Self::gathered(
                pre,
                post,
                fired,
            ),
            Change::Ran(step) => Self::ran(pre, post, step),
            Change::SignalAdded { handle, signal } => pre.alive(handle) && Self::signal_added(
                pre,
                post,
                handle,
                signal,
            ),
            Change::IdleAdded { handle } => pre.alive(handle) && Self::idle_added(
                pre,
                post,
                handle,
            ),
            Change::Aside => {
                &&& post.events@ == pre.events@
                &&& post.generation == pre.generation
                &&& post.wrapped == pre.wrapped
                &&& post.timeouts@ == pre.timeouts@
                &&& post.timeout_generation == pre.timeout_generation
                &&& post.timeout_wrapped == pre.timeout_wrapped
                &&& post.scheduled@ == pre.scheduled@
                &&& post.ios@ == pre.ios@
                &&& post.ios.next_index() == pre.ios.next_index()
                &&& post.ios_released@ == pre.ios_released@
                &&& post.children@ == pre.children@
                &&& post.want_idle@ == pre.want_idle@
                &&& post.signal_recipients@ == pre.signal_recipients@
                &&& post.sigchld == pre.sigchld
            },
        }
    }

    /// The loop went through these states, by these changes.
    pub open spec fn history(states: Seq<Self>, changes: Seq<Change<Ev, D, Io>>) -> bool {
        &&& states.len() == changes.len() + 1
        &&& forall|i: int| 0 <= i < states.len() ==> (#[trigger] states[i]).wf()
        &&& forall|i: int|
            0 <= i < changes.len() ==> Self::happened(
                states[i],
                states[i + 1],
                #[trigger] changes[i],
            )
    }
}

/// Counting in two queues, one after another.
pub proof fn lemma_id_concat<D>(a: Seq<Task<D>>, b: Seq<Task<D>>, id: TimeoutId)
    ensures
        id_queued(a + b, id) == id_queued(a, id) + id_queued(b, id),
    decreases b.len(),
{
    if b.len() == 0 {
        assert(a + b =~= a);
    } else {
        lemma_id_concat(a, b.drop_last(), id);
        assert((a + b).drop_last() =~= a + b.drop_last());
    }
}

/// There's nothing to count in a queue without timeouts.
pub proof fn lemma_id_none<D>(q: Seq<Task<D>>, id: TimeoutId)
    requires
        no_timeouts(q),
    ensures
        id_queued(q, id) == 0,
    decreases q.len(),
{
    if q.len() > 0 {
        assert(q.last() == q[q.len() - 1]);
        lemma_id_none(q.drop_last(), id);
    }
}

/// Taking the tasks up to one off the queue leaves at most as many timeouts there, and fewer if that
/// one was such.
pub proof fn lemma_id_skip<D>(q: Seq<Task<D>>, k: int, id: TimeoutId)
    requires
        0 <= k < q.len(),
    ensures
        id_queued(q.skip(k + 1), id) + id_weight(q[k], id) <= id_queued(q, id),
{
    assert(q.take(k + 1) + q.skip(k + 1) =~= q);
    lemma_id_concat(q.take(k + 1), q.skip(k + 1), id);
    assert(q.take(k + 1).last() == q[k]);
}

/// The tasks made of timeouts are counted as the timeouts are.
pub proof fn lemma_id_tasks<D>(fired: Seq<TimeoutHolder>, id: TimeoutId)
    ensures
        id_queued(fired.map_values(timeout_task::<D>()), id) == stored(fired.to_multiset(), id),
    decreases fired.len(),
{
    broadcast use vstd::multiset::group_multiset_axioms;
    broadcast use vstd::seq_lib::group_to_multiset_ensures;

    let tasks = fired.map_values(timeout_task::<D>());
    if fired.len() == 0 {
        assert(fired.to_multiset() =~= Multiset::<TimeoutHolder>::empty());
        assert(fired.to_multiset().filter(with_id(id)) =~= Multiset::<TimeoutHolder>::empty());
    } else {
        let rest = fired.drop_last();
        lemma_id_tasks::<D>(rest, id);
        assert(tasks.drop_last() =~= rest.map_values(timeout_task::<D>()));
        assert(rest.push(fired.last()) =~= fired);
        assert(fired.to_multiset() =~= rest.to_multiset().insert(fired.last()));
        lemma_stored_insert(rest.to_multiset(), fired.last(), id);
        assert(tasks.last() == timeout_task::<D>()(fired.last()));
    }
}

/// A timeout is either over or not.
pub proof fn lemma_stored_over(m: Multiset<TimeoutHolder>, now: i128, id: TimeoutId)
    ensures
        stored(m, id) == stored(m.filter(over(now)), id) + stored(m.filter(not_over(now)), id),
{
    broadcast use vstd::multiset::group_multiset_axioms;

    let f = with_id(id);
    assert(m.filter(f) =~= m.filter(over(now)).filter(f).add(m.filter(not_over(now)).filter(f)));
}

impl<Context, Ev, D, Io> Loop<Context, Ev, D, Io> {
    /// Only a new timeout may have an id that doesn't wait yet, and it is an id not used before.
    pub proof fn lemma_ids_used(pre: Self, post: Self, change: Change<Ev, D, Io>, id: TimeoutId)
        requires
            Self::happened(pre, post, change),
            !post.timeout_wrapped,
        ensures
            !pre.timeout_wrapped,
            pre.timeout_generation <= post.timeout_generation,
            id.0 < pre.timeout_generation ==> waiting(post.timeouts@, post.scheduled@, id)
                <= waiting(pre.timeouts@, pre.scheduled@, id),
            change matches Change::Ran(Step::Call { handle, event, param }) && param
                == TaskParam::<D>::Timeout(id) ==> waiting(post.timeouts@, post.scheduled@, id)
                < waiting(pre.timeouts@, pre.scheduled@, id),
    {
        broadcast use vstd::multiset::group_multiset_axioms;

        let q = pre.scheduled@;
        match change {
            Change::TimeoutAdded { handle, when, id: new } => {
                lemma_stored_insert(
                    pre.timeouts@,
                    TimeoutHolder { id: new, recipient: handle, when },
                    id,
                );
            },
            Change::ChildExited { pid, exit } => {
                lemma_id_push(q, post.scheduled@.last(), id);
            },
            Change::Scheduled(task) => {
                lemma_id_push(q, task, id);
            },
            Change::SignalDelivered(signal) => {
                let tasks = signal_tasks::<D>(pre.signal_recipients@, signal);
                lemma_id_concat(q, tasks, id);
                lemma_id_none(tasks, id);
            },
            Change::Pruned => {
                lemma_stored_subset(post.timeouts@, pre.timeouts@, id);
            },
            Change::Fired(fired) => {
                lemma_id_concat(q, fired.map_values(timeout_task()), id);
                lemma_id_tasks::<D>(fired, id);
                lemma_stored_over(pre.timeouts@, pre.now, id);
            },
            Change::GatherStarted => {
                lemma_stored_subset(post.timeouts@, pre.timeouts@, id);
            },
            Change::Gathered(fired) => {
                let tasks = fired.map_values(timeout_task::<D>());
                lemma_id_concat(q, tasks, id);
                lemma_id_tasks::<D>(fired, id);
                lemma_stored_over(pre.pruned(), pre.now, id);
                lemma_stored_subset(pre.pruned(), pre.timeouts@, id);
                if (q + tasks).len() == 0 && pre.want_idle@.len() > 0 {
                    lemma_id_none(post.scheduled@, id);
                }
            },
            Change::Ran(step) => {
                if step is Gather {
                    assert(id_queued(post.scheduled@, id) == 0);
                } else {
                    let k = choose|k: int|
                        {
                            &&& 0 <= k < pre.scheduled@.len()
                            &&& pre.alive(pre.scheduled@[k].recipient)
                            &&& forall|i: int|
                                0 <= i < k ==> !pre.alive((#[trigger] pre.scheduled@[i]).recipient)
                            &&& #[trigger] Self::stepped(pre, post, k, step)
                        };
                    lemma_id_skip(q, k, id);
                }
            },
            _ => {},
        }
    }
}

} // verus!
