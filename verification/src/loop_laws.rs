//! What holds of the operations of the loop.
//!
//! These are told by what the operations get, what they give back and what can be found in the loop
//! afterwards.
use vstd::prelude::*;

use std::any::TypeId;

use mio::Ready;

use crate::background::Channel;
use crate::error::Error;
use crate::event_loop::{
    alive_in, children_wf, gens, idle_wf, kids, live, signals_wf, EvHolder, Loop, Outcome,
};
use crate::handle::{BackgroundId, Handle, IoId, TimeoutId};
use crate::loop_io::Source;
use crate::loop_message::PoolChange;
use crate::loop_run::Step;
use crate::loop_signal::{signal_tasks, wants};
use crate::loop_timers::{fires, not_over, over, timeout_task};
use crate::message::{DeliveryMode, RemoteMessage};
use crate::part_laws::{lemma_without_none, lemma_without_once};
use crate::signal::{ChildStatus, Signal, SignalRead, SignalStep};
use crate::task::{for_one_of, lemma_due_of, queued, Callback, Task, TaskParam};
use crate::timers::TimeoutHolder;

verus! {

/// An event lives exactly if it is in its slot with its generation. It is busy exactly if it was
/// taken out of its cell.
pub proof fn law_living_are_in_their_slots<C, E, D, I>(l: Loop<C, E, D, I>, handle: Handle)
    ensures
        l.alive(handle) <==> {
            &&& handle.id < l.events.data@.len()
            &&& l.events.data@[handle.id as int] is Some
            &&& l.events.data@[handle.id as int]->0.generation == handle.generation
        },
        l.alive(handle) ==> l.events.data@[handle.id as int] == Some(l.holder(handle)),
        l.busy(handle) <==> l.alive(handle) && l.holder(handle).event@ is None,
{
}

/// The questions about events are answered by what is in the slots.
pub proof fn law_events_answers<C, E, D, I>(
    l: &Loop<C, E, D, I>,
    handle: Handle,
    alive: bool,
    busy: bool,
    count: usize,
)
    requires
        l.wf(),
        call_ensures(Loop::<C, E, D, I>::event_alive, (l, handle), alive),
        call_ensures(Loop::<C, E, D, I>::event_busy, (l, handle), busy),
        call_ensures(Loop::<C, E, D, I>::event_count, (l,), count),
    ensures
        alive <==> {
            &&& handle.id < l.events.data@.len()
            &&& l.events.data@[handle.id as int] is Some
            &&& l.events.data@[handle.id as int]->0.generation == handle.generation
        },
        busy <==> alive && l.events.data@[handle.id as int]->0.event@ is None,
        count == l.events.data@.len() - l.events.free@.len(),
{
    l.events.lemma_len();
}

/// Waiting for an event goes on as long as it lives. To wait for one in the middle of its callback
/// would take forever, which is found out at the first time.
pub proof fn law_waiting_for_an_event<C, E, D, I>(
    l: &Loop<C, E, D, I>,
    handle: Handle,
    first: bool,
    r: Result<bool, Error>,
)
    requires
        call_ensures(Loop::<C, E, D, I>::run_until_complete, (l, handle, first), r),
    ensures
        !l.alive(handle) ==> r == Ok::<bool, Error>(false),
        l.alive(handle) && first && l.holder(handle).event@ is None ==> r == Err::<bool, Error>(
            Error::DeadLock,
        ),
        l.alive(handle) && !(first && l.holder(handle).event@ is None) ==> r == Ok::<bool, Error>(
            true,
        ),
{
}

/// The handle for the next event may be used exactly if no timeout is for it, neither one that waits
/// for its time nor one in the queue.
pub proof fn law_unused_handle<C, E, D, I>(l: &Loop<C, E, D, I>, unused: bool)
    requires
        l.wf(),
        call_ensures(Loop::<C, E, D, I>::handle_unused, (l,), unused),
    ensures
        !l.wrapped ==> unused,
        unused <==> {
            &&& forall|t: TimeoutHolder| #[trigger]
                l.timeouts@.count(t) > 0 ==> t.recipient != l.next_handle()
            &&& forall|i: int|
                0 <= i < l.scheduled@.len() && (#[trigger] l.scheduled@[i]).param is Timeout
                    ==> l.scheduled@[i].recipient != l.next_handle()
        },
        l.next_handle().generation == l.generation,
        l.events.free@.len() > 0 ==> l.next_handle().id == l.events.free@.last(),
        l.events.free@.len() == 0 ==> l.next_handle().id == l.events.data@.len(),
{
    let handle = l.next_handle();
    let s = set![handle];
    assert(l.events.data.len() == l.events.data@.len());
    lemma_due_of(l.timeouts@, handle);
    if unused {
        assert forall|t: TimeoutHolder| #[trigger] l.timeouts@.count(t) > 0 implies t.recipient
            != handle by {
            assert(l.timeouts@.contains(t));
        }
        assert forall|i: int|
            0 <= i < l.scheduled@.len() && (#[trigger] l.scheduled@[i]).param is Timeout implies
            l.scheduled@[i].recipient != handle by {
            if l.scheduled@[i].recipient == handle {
                crate::task::lemma_queued_some(l.scheduled@, s, i);
            }
        }
    } else {
        if queued(l.scheduled@, s) == 0 {
            let t = choose|t: TimeoutHolder| #[trigger]
                l.timeouts@.contains(t) && t.recipient == handle;
            assert(l.timeouts@.count(t) > 0);
        } else if forall|i: int|
            0 <= i < l.scheduled@.len() && (#[trigger] l.scheduled@[i]).param is Timeout
                ==> l.scheduled@[i].recipient != handle {
            crate::task::lemma_queued_unrelated(l.scheduled@, s);
        }
    }
}

/// An inserted event lives under a handle of its own and has nothing yet. Everything else is as it
/// was.
pub proof fn law_inserted_lives<C, E, D, I>(
    pre: Loop<C, E, D, I>,
    post: Loop<C, E, D, I>,
    event: E,
    handle: Handle,
    other: Handle,
)
    requires
        pre.wf(),
        Loop::inserted(pre, post, event, handle),
    ensures
        handle.generation == pre.generation,
        pre.events.free@.len() > 0 ==> handle.id == pre.events.free@.last(),
        pre.events.free@.len() == 0 ==> handle.id == pre.events.data@.len(),
        !pre.alive(handle),
        post.alive(handle),
        post.holder(handle).event@ == Some(event),
        post.holder(handle).timeouts == 0,
        forall|k: usize| !#[trigger] post.holder(handle).ios@.dom().contains(k),
        post.holder(handle).expected_messages@.len() == 0,
        forall|pid: i32| !#[trigger] post.holder(handle).children@.contains(pid),
        other.id != handle.id ==> (post.alive(other) <==> pre.alive(other)),
        other.id != handle.id && pre.alive(other) ==> post.holder(other) == pre.holder(other),
        pre.alive(other) ==> other.id != handle.id,
        pre.generation < u64::MAX ==> post.generation == pre.generation + 1 && post.wrapped
            == pre.wrapped,
        pre.generation == u64::MAX ==> post.generation == 0 && post.wrapped,
        (post == Loop {
            events: post.events,
            generation: post.generation,
            wrapped: post.wrapped,
            ..pre
        }),
{
}

/// Taking an event out for its callback hands it over as it is and leaves it busy. Returning puts
/// back what is returned. Nothing else changes by either.
pub proof fn law_taken_and_returned<C, E, D, I>(
    a: Loop<C, E, D, I>,
    b: Loop<C, E, D, I>,
    handle: Handle,
    event: E,
    other: Handle,
)
    ensures
        Loop::taken(a, b, handle, event) ==> {
            &&& a.alive(handle)
            &&& a.holder(handle).event@ == Some(event)
            &&& b.holder(handle).event@ is None
        },
        Loop::returned(a, b, handle, event) ==> {
            &&& a.alive(handle)
            &&& a.holder(handle).event@ is None
            &&& b.holder(handle).event@ == Some(event)
        },
        Loop::taken(a, b, handle, event) || Loop::returned(a, b, handle, event) ==> {
            &&& b.alive(handle)
            &&& b.holder(handle).generation == a.holder(handle).generation
            &&& b.holder(handle).timeouts == a.holder(handle).timeouts
            &&& b.holder(handle).ios == a.holder(handle).ios
            &&& b.holder(handle).expected_messages == a.holder(handle).expected_messages
            &&& b.holder(handle).children == a.holder(handle).children
            &&& other.id != handle.id ==> (b.alive(other) <==> a.alive(other))
            &&& other.id != handle.id && a.alive(other) ==> b.holder(other) == a.holder(other)
            &&& (b == Loop { events: b.events, ..a })
        },
{
}

/// Killing an event takes away the event and everything it registered for, and nothing of any other
/// event.
pub proof fn law_killing_takes_one_event<C, E, D, I>(
    pre: Loop<C, E, D, I>,
    post: Loop<C, E, D, I>,
    handle: Handle,
    other: Handle,
    number: i32,
    pid: i32,
    k: usize,
)
    requires
        pre.wf(),
        pre.alive(handle),
        Loop::killed(pre, post, handle),
    ensures
        !post.alive(handle),
        other != handle ==> (post.alive(other) <==> pre.alive(other)),
        other != handle && pre.alive(other) ==> post.holder(other) == pre.holder(other),
        post.signal_recipients@.contains((number, other)) <==> pre.signal_recipients@.contains(
            (number, other),
        ) && other != handle,
        post.children@.dom().contains(pid) <==> pre.children@.dom().contains(pid)
            && pre.children@[pid] != handle,
        post.children@.dom().contains(pid) ==> post.children@[pid] == pre.children@[pid],
        post.ios_released@.contains(k) <==> pre.ios_released@.contains(k) || pre.holder(
            handle,
        ).ios@.dom().contains(k),
        !pre.want_idle@.contains(handle) ==> post.want_idle@ == pre.want_idle@,
        forall|i: int|
            0 <= i < pre.want_idle@.len() && #[trigger] pre.want_idle@[i] == handle
                ==> post.want_idle@ == pre.want_idle@.take(i) + pre.want_idle@.skip(i + 1),
        post.timeouts_dead == pre.timeouts_dead + pre.holder(handle).timeouts,
        (post == Loop {
            events: post.events,
            timeouts_dead: post.timeouts_dead,
            ios_released: post.ios_released,
            want_idle: post.want_idle,
            signal_recipients: post.signal_recipients,
            children: post.children,
            ..pre
        }),
{
    reveal(children_wf);
    reveal(idle_wf);
    let g = gens(pre.events@);
    let known = kids(pre.events@);
    assert(alive_in(g, handle));
    assert(known[handle.id as int] == pre.holder(handle).children@);
    if pre.children@.dom().contains(pid) {
        let owner = pre.children@[pid];
        assert(known[owner.id as int].contains(pid));
        if pre.holder(handle).children@.contains(pid) {
            assert(known[handle.id as int].contains(pid));
        }
    }
    if !pre.want_idle@.contains(handle) {
        lemma_without_none(pre.want_idle@, handle);
    }
    assert forall|i: int| 0 <= i < pre.want_idle@.len() && #[trigger] pre.want_idle@[i] == handle
        implies post.want_idle@ == pre.want_idle@.take(i) + pre.want_idle@.skip(i + 1) by {
        lemma_without_once(pre.want_idle@, handle, i);
    }
    let f = crate::event_loop::other_recipient(handle);
    let all = pre.signal_recipients@;
    crate::event_loop::lemma_filter_unique(all, f);
    let p = (number, other);
    if post.signal_recipients@.contains(p) {
        let j = choose|j: int| 0 <= j < all.filter(f).len() && all.filter(f)[j] == p;
        assert(f(all.filter(f)[j]));
        assert(all.contains(all.filter(f)[j]));
    }
    if all.contains(p) && other != handle {
        let j = choose|j: int| 0 <= j < all.len() && all[j] == p;
        assert(f(all[j]));
        crate::laws::lemma_filter_keeps(all, f, j);
    }
}

/// After its callback, the event lives on as the callback left it, or comes out together with each of
/// its IOs, once.
pub proof fn law_end_of_a_callback<C, E, D, I>(
    pre: Loop<C, E, D, I>,
    post: Loop<C, E, D, I>,
    handle: Handle,
    event: E,
    response: Result<bool, Error>,
    outcome: Outcome<E, I>,
    ios: Seq<(usize, I)>,
    k: usize,
)
    requires
        pre.busy(handle),
        Loop::ended(pre, post, handle, event, response, outcome),
        outcome is Killed ==> ios == outcome->Killed_ios@,
        outcome is Failed ==> ios == outcome->Failed_ios@,
    ensures
        response == Ok::<bool, Error>(true) ==> {
            &&& outcome is Kept
            &&& post.alive(handle)
            &&& post.holder(handle).event@ == Some(event)
        },
        response == Ok::<bool, Error>(false) ==> {
            &&& outcome is Killed
            &&& !post.alive(handle)
            &&& outcome->Killed_event == event
        },
        response is Err ==> {
            &&& outcome is Failed
            &&& !post.alive(handle)
            &&& outcome->Failed_event == event
            &&& outcome->error == response->Err_0
        },
        !(outcome is Kept) && pre.holder(handle).ios@.dom().contains(k) ==> exists|i: int|
            0 <= i < ios.len() && #[trigger] ios[i] == (k, pre.holder(handle).ios@[k]),
        !(outcome is Kept) ==> forall|i: int|
            0 <= i < ios.len() ==> pre.holder(handle).ios@.dom().contains((#[trigger] ios[i]).0)
                && pre.holder(handle).ios@[ios[i].0] == ios[i].1,
        !(outcome is Kept) ==> forall|i: int, j: int|
            0 <= i < j < ios.len() ==> (#[trigger] ios[i]).0 != (#[trigger] ios[j]).0,
{
    if !(outcome is Kept) {
        let owned = pre.holder(handle).ios@;
        if owned.dom().contains(k) {
            let i = choose|i: int| 0 <= i < ios.len() && (#[trigger] ios[i]).0 == k;
            assert(ios[i] == (k, owned[k]));
        }
    }
}

/// A step takes the first task for a living event. What was before it was for dead events, what is
/// behind it stays as it is.
///
/// The event is called with exactly that task. If it is in the middle of a callback, the step fails
/// and if the task is about an IO the event doesn't have any more, nothing happens. A timeout that
/// came to its turn counts as fired and no longer as one of the event.
pub proof fn law_step_takes_the_first_task<C, E, D, I>(
    pre: Loop<C, E, D, I>,
    post: Loop<C, E, D, I>,
    r: Step<E, D>,
    k: int,
    other: Handle,
)
    requires
        Loop::ran(pre, post, r),
        0 <= k < pre.scheduled@.len(),
        pre.alive(pre.scheduled@[k].recipient),
        forall|i: int| 0 <= i < k ==> !pre.alive((#[trigger] pre.scheduled@[i]).recipient),
    ensures
        post.scheduled@ == pre.scheduled@.skip(k + 1),
        ({
            let task = pre.scheduled@[k];
            let handle = task.recipient;
            let lost = match task.param {
                TaskParam::Io(id, _) => !pre.holder(handle).ios@.dom().contains(
                    id.index() as usize,
                ),
                _ => false,
            };
            &&& lost ==> r == Step::<E, D>::Done(Ok(())) && (post == Loop {
                scheduled: post.scheduled,
                ..pre
            })
            &&& !lost && pre.holder(handle).event@ is None ==> r == Step::<E, D>::Done(
                Err(Error::Busy),
            )
            &&& !lost && pre.holder(handle).event@ is Some ==> {
                &&& r is Call
                &&& r->handle == handle
                &&& r->param == task.param
                &&& Some(r->event@) == pre.holder(handle).event@
            }
            &&& !lost ==> {
                &&& post.alive(handle)
                &&& post.holder(handle).event@ is None
                &&& task.param is Timeout ==> post.timeouts_fired == pre.timeouts_fired + 1
                    && post.holder(handle).timeouts == pre.holder(handle).timeouts - 1
                &&& !(task.param is Timeout) ==> post.timeouts_fired == pre.timeouts_fired
                    && post.holder(handle).timeouts == pre.holder(handle).timeouts
                &&& post.holder(handle).ios == pre.holder(handle).ios
                &&& post.holder(handle).expected_messages == pre.holder(handle).expected_messages
                &&& post.holder(handle).children == pre.holder(handle).children
                &&& (post == Loop {
                    scheduled: post.scheduled,
                    events: post.events,
                    timeouts_fired: post.timeouts_fired,
                    ..pre
                })
            }
            &&& other.id != handle.id ==> (post.alive(other) <==> pre.alive(other))
            &&& other.id != handle.id && pre.alive(other) ==> post.holder(other) == pre.holder(
                other,
            )
        }),
{
    if r is Gather {
        assert(!pre.alive(pre.scheduled@[k].recipient));
    } else {
        let n = choose|n: int|
            {
                &&& 0 <= n < pre.scheduled@.len()
                &&& pre.alive(pre.scheduled@[n].recipient)
                &&& forall|i: int|
                    0 <= i < n ==> !pre.alive((#[trigger] pre.scheduled@[i]).recipient)
                &&& #[trigger] Loop::stepped(pre, post, n, r)
            };
        if n < k {
            assert(!pre.alive(pre.scheduled@[n].recipient));
        } else if k < n {
            assert(!pre.alive(pre.scheduled@[k].recipient));
        }
    }
}

/// If there's no task for a living event, the queue is emptied and tasks need to be gathered. That's
/// the only reason for it.
pub proof fn law_no_task_no_step<C, E, D, I>(
    pre: Loop<C, E, D, I>,
    post: Loop<C, E, D, I>,
    r: Step<E, D>,
)
    requires
        Loop::ran(pre, post, r),
    ensures
        r is Gather <==> forall|i: int|
            0 <= i < pre.scheduled@.len() ==> !pre.alive(
                (#[trigger] pre.scheduled@[i]).recipient,
            ),
        r is Gather ==> post.scheduled@.len() == 0 && (post == Loop {
            scheduled: post.scheduled,
            ..pre
        }),
{
}

/// A timeout the event asks for waits from then on, once, with the instant it asked for. Its id is
/// the next one. Nothing else changes.
pub proof fn law_timeout_waits<C, E, D, I>(
    l: &mut Loop<C, E, D, I>,
    handle: Handle,
    when: i128,
    id: TimeoutId,
    t: TimeoutHolder,
    other: Handle,
)
    requires
        l.wf(),
        l.alive(handle),
        call_ensures(Loop::<C, E, D, I>::timeout_at, (l, handle, when), id),
    ensures
        final(l).wf(),
        id.0 == old(l).timeout_generation,
        old(l).timeout_generation < u64::MAX ==> final(l).timeout_generation == old(l).timeout_generation + 1 && final(l).timeout_wrapped == old(l).timeout_wrapped,
        old(l).timeout_generation == u64::MAX ==> final(l).timeout_generation == 0 && final(l).timeout_wrapped,
        final(l).timeouts@.count(t) == old(l).timeouts@.count(t) + (if t.id == id && t.recipient
            == handle && t.when == when {
            1nat
        } else {
            0nat
        }),
        final(l).timeouts_inserted == old(l).timeouts_inserted + 1,
        final(l).alive(handle),
        final(l).holder(handle).timeouts == old(l).holder(handle).timeouts + 1,
        (final(l).holder(handle) == EvHolder {
            timeouts: final(l).holder(handle).timeouts,
            ..old(l).holder(handle)
        }),
        other.id != handle.id ==> (final(l).alive(other) <==> old(l).alive(other)),
        other.id != handle.id && old(l).alive(other) ==> final(l).holder(other) == old(l).holder(
            other,
        ),
        (*final(l) == Loop {
            events: final(l).events,
            timeouts: final(l).timeouts,
            timeouts_inserted: final(l).timeouts_inserted,
            timeout_generation: final(l).timeout_generation,
            timeout_wrapped: final(l).timeout_wrapped,
            ..*old(l)
        }),
{
    broadcast use vstd::multiset::group_multiset_axioms;

}

/// A timeout after some time is the same as one at the instant that far from now.
pub proof fn law_after_is_at<C, E, D, I>(
    l: &mut Loop<C, E, D, I>,
    handle: Handle,
    after: u128,
    id: TimeoutId,
    t: TimeoutHolder,
)
    requires
        l.wf(),
        l.alive(handle),
        l.now + after <= i128::MAX,
        call_ensures(Loop::<C, E, D, I>::timeout_after, (l, handle, after), id),
    ensures
        id.0 == old(l).timeout_generation,
        final(l).timeouts@.count(t) == old(l).timeouts@.count(t) + (if t.id == id && t.recipient
            == handle && t.when == old(l).now + after {
            1nat
        } else {
            0nat
        }),
        final(l).holder(handle).timeouts == old(l).holder(handle).timeouts + 1,
        final(l).timeouts_inserted == old(l).timeouts_inserted + 1,
        (*final(l) == Loop {
            events: final(l).events,
            timeouts: final(l).timeouts,
            timeouts_inserted: final(l).timeouts_inserted,
            timeout_generation: final(l).timeout_generation,
            timeout_wrapped: final(l).timeout_wrapped,
            ..*old(l)
        }),
{
    broadcast use vstd::multiset::group_multiset_axioms;

}

/// The loop sleeps exactly as long as it may.
///
/// If someone wants to be called when it is idle, not at all. Otherwise until the first timeout of a
/// living event, which is not at all if that is late already. Without such, there's no limit.
/// Timeouts of dead events may get dropped by it, those of living ones stay.
pub proof fn law_sleeps_until_the_first_timeout<C, E, D, I>(
    l: &mut Loop<C, E, D, I>,
    now: i128,
    r: Option<u128>,
    t: TimeoutHolder,
)
    requires
        l.wf(),
        call_ensures(Loop::<C, E, D, I>::timeout_min, (l, now), r),
    ensures
        old(l).want_idle@.len() > 0 ==> r == Some(0u128),
        old(l).timeouts@.count(t) > 0 && old(l).alive(t.recipient) ==> r is Some && (r->0 == 0
            || now + r->0 <= t.when),
        old(l).want_idle@.len() == 0 && r is Some ==> exists|u: TimeoutHolder|
            {
                &&& #[trigger] old(l).timeouts@.count(u) > 0
                &&& old(l).alive(u.recipient)
                &&& (u.when < now ==> r->0 == 0)
                &&& (u.when >= now ==> now + r->0 == u.when)
            },
        old(l).alive(t.recipient) ==> final(l).timeouts@.count(t) == old(l).timeouts@.count(t),
        final(l).timeouts@.count(t) <= old(l).timeouts@.count(t),
        (*final(l) == Loop { timeouts: final(l).timeouts, ..*old(l) }),
{
    broadcast use vstd::multiset::group_multiset_axioms;

    lemma_wakes_up(*l, now, r, t);
    let f = for_one_of(live(gens(l.events@)));
    if l.alive(t.recipient) {
        assert(alive_in(gens(l.events@), t.recipient));
        assert(f(t));
        assert(final(l).timeouts@.filter(f).count(t) == final(l).timeouts@.count(t));
        assert(l.timeouts@.filter(f).count(t) == l.timeouts@.count(t));
    }
}

/// When to wake up, in terms of the timeouts themselves.
proof fn lemma_wakes_up<C, E, D, I>(
    l: Loop<C, E, D, I>,
    now: i128,
    r: Option<u128>,
    t: TimeoutHolder,
)
    requires
        l.wakes_up(now, r),
    ensures
        l.want_idle@.len() > 0 ==> r == Some(0u128),
        l.timeouts@.count(t) > 0 && l.alive(t.recipient) ==> r is Some && (r->0 == 0 || now + r->0
            <= t.when),
        l.want_idle@.len() == 0 && r is Some ==> exists|u: TimeoutHolder|
            {
                &&& #[trigger] l.timeouts@.count(u) > 0
                &&& l.alive(u.recipient)
                &&& (u.when < now ==> r->0 == 0)
                &&& (u.when >= now ==> now + r->0 == u.when)
            },
{
    broadcast use vstd::multiset::group_multiset_axioms;

    let g = gens(l.events@);
    let f = for_one_of(live(g));
    if l.timeouts@.count(t) > 0 && l.alive(t.recipient) {
        assert(l.timeouts@.contains(t));
        crate::laws::law_no_oversleeping(l, now, r, t);
    }
    if l.want_idle@.len() == 0 && r is Some {
        let u = choose|u: TimeoutHolder|
            {
                &&& #[trigger] crate::loop_timers::soonest_for(l.timeouts@, live(g), u)
                &&& r->0 == (if u.when < now {
                    0
                } else {
                    u.when - now
                })
            };
        assert(l.timeouts@.filter(f).contains(u));
        assert(f(u));
        assert(alive_in(g, u.recipient));
        assert(l.timeouts@.count(u) > 0);
    }
}

/// Gathering starts by giving the held ids of IOs free, nothing else happens to the IOs. It can't be
/// done exactly if there are no events. The time to sleep is until the first timeout of a living
/// event and none of these timeouts is lost.
pub proof fn law_gathering_starts<C, E, D, I>(
    l: &mut Loop<C, E, D, I>,
    now: i128,
    r: Result<Option<u128>, Error>,
    t: TimeoutHolder,
    k: usize,
    handle: Handle,
)
    requires
        l.wf(),
        call_ensures(Loop::<C, E, D, I>::tasks_gather, (l, now), r),
    ensures
        final(l).wf(),
        old(l).alive(handle) ==> r is Ok,
        r is Ok ==> exists|i: int| #[trigger] old(l).events@.dom().contains(i),
        r is Err ==> r->Err_0 == Error::Empty,
        final(l).ios@.dom().contains(k as int) <==> old(l).ios@.dom().contains(k as int) && !old(l).ios_released@.contains(k),
        final(l).ios@.dom().contains(k as int) ==> final(l).ios@[k as int] == old(l).ios@[k as int],
        !final(l).ios_released@.contains(k),
        old(l).alive(t.recipient) ==> final(l).timeouts@.count(t) == old(l).timeouts@.count(t),
        final(l).timeouts@.count(t) <= old(l).timeouts@.count(t),
        r is Ok && old(l).want_idle@.len() > 0 ==> r->Ok_0 == Some(0u128),
        r is Ok && old(l).timeouts@.count(t) > 0 && old(l).alive(t.recipient) ==> r->Ok_0 is Some
            && (r->Ok_0->0 == 0 || now + r->Ok_0->0 <= t.when),
        r is Ok && old(l).want_idle@.len() == 0 && r->Ok_0 is Some ==> exists|u: TimeoutHolder|
            {
                &&& #[trigger] old(l).timeouts@.count(u) > 0
                &&& old(l).alive(u.recipient)
                &&& (u.when < now ==> r->Ok_0->0 == 0)
                &&& (u.when >= now ==> now + r->Ok_0->0 == u.when)
            },
        (*final(l) == Loop {
            ios: final(l).ios,
            ios_released: final(l).ios_released,
            timeouts: final(l).timeouts,
            ..*old(l)
        }),
{
    broadcast use vstd::multiset::group_multiset_axioms;

    if r is Ok {
        lemma_wakes_up(*l, now, r->Ok_0, t);
        if forall|i: int| !#[trigger] l.events@.dom().contains(i) {
            assert(l.events@ =~= Map::<int, EvHolder<E, I>>::empty());
        }
    }
    if l.alive(handle) {
        assert(l.events@.dom().contains(handle.id as int));
    }
    if l.alive(t.recipient) {
        crate::laws::law_timeouts_survive(*l, *final(l), t);
    }
}

/// The statistics and the cleanup of the timeouts.
///
/// Those of living events stay. Those of dead events stay too, unless there are more than five of
/// them and more than three times as many as of the living ones: then they are all dropped.
pub proof fn law_cleanup_drops_only_dead<C, E, D, I>(
    l: &mut Loop<C, E, D, I>,
    t: TimeoutHolder,
    dead: nat,
    alive: nat,
)
    requires
        l.wf(),
        call_ensures(Loop::<C, E, D, I>::timers_cleanup, (l,), ()),
        alive == l.timeouts@.filter(|u: TimeoutHolder| l.alive(u.recipient)).len(),
        dead == l.timeouts@.filter(|u: TimeoutHolder| !l.alive(u.recipient)).len(),
    ensures
        old(l).alive(t.recipient) ==> final(l).timeouts@.count(t) == old(l).timeouts@.count(t),
        !old(l).alive(t.recipient) && dead > 5 && alive * 3 < dead ==> final(l).timeouts@.count(t)
            == 0,
        !(dead > 5 && alive * 3 < dead) ==> final(l).timeouts@.count(t) == old(l).timeouts@.count(t),
        final(l).timeouts_fired == 0,
        final(l).timeouts_inserted == final(l).timeouts@.len(),
        final(l).timeouts_dead == (if dead > 5 && alive * 3 < dead {
            0
        } else {
            dead
        }),
        (*final(l) == Loop {
            timeouts: final(l).timeouts,
            timeouts_dead: final(l).timeouts_dead,
            timeouts_fired: final(l).timeouts_fired,
            timeouts_inserted: final(l).timeouts_inserted,
            ..*old(l)
        }),
{
    lemma_pruned_count(*l, t, dead, alive);
}

/// What is left of the timeouts after a cleanup.
proof fn lemma_pruned_count<C, E, D, I>(
    l: Loop<C, E, D, I>,
    t: TimeoutHolder,
    dead: nat,
    alive: nat,
)
    requires
        alive == l.timeouts@.filter(|u: TimeoutHolder| l.alive(u.recipient)).len(),
        dead == l.timeouts@.filter(|u: TimeoutHolder| !l.alive(u.recipient)).len(),
    ensures
        l.timers_alive() == alive,
        l.timers_dead() == dead,
        l.needs_pruning() <==> dead > 5 && alive * 3 < dead,
        l.alive(t.recipient) ==> l.pruned().count(t) == l.timeouts@.count(t),
        !l.alive(t.recipient) && l.needs_pruning() ==> l.pruned().count(t) == 0,
        !l.needs_pruning() ==> l.pruned() == l.timeouts@,
        l.pruned().count(t) <= l.timeouts@.count(t),
{
    broadcast use vstd::multiset::group_multiset_axioms;

    let g = gens(l.events@);
    let f = for_one_of(live(g));
    let a = |u: TimeoutHolder| l.alive(u.recipient);
    let d = |u: TimeoutHolder| !l.alive(u.recipient);
    assert forall|u: TimeoutHolder| #[trigger] f(u) == l.alive(u.recipient) by {
        assert(alive_in(g, u.recipient) <==> l.alive(u.recipient));
    }
    assert(l.timeouts@.filter(f) =~= l.timeouts@.filter(a));
    assert(l.timeouts@ =~= l.timeouts@.filter(a).add(l.timeouts@.filter(d)));
    assert(f(t) == l.alive(t.recipient));
}

/// The timeouts whose time has come are put behind what is in the queue, in the order of their time,
/// each as often as it waited. The others keep waiting.
pub proof fn law_over_are_queued<C, E, D, I>(l: &mut Loop<C, E, D, I>, t: TimeoutHolder)
    requires
        l.wf(),
        call_ensures(Loop::<C, E, D, I>::tasks_gather_timers, (l,), ()),
    ensures
        final(l).timeouts@.count(t) == (if t.when > old(l).now {
            old(l).timeouts@.count(t)
        } else {
            0
        }),
        exists|fired: Seq<TimeoutHolder>|
            #![trigger fired.len()]
            {
                &&& final(l).scheduled@.len() == old(l).scheduled@.len() + fired.len()
                &&& final(l).scheduled@.take(old(l).scheduled@.len() as int) == old(l).scheduled@
                &&& forall|i: int|
                    0 <= i < fired.len() ==> (#[trigger] final(l).scheduled@[old(l).scheduled@.len() + i]).recipient
                        == fired[i].recipient && final(l).scheduled@[old(l).scheduled@.len() + i].param == TaskParam::<D>::Timeout(
                        fired[i].id,
                    )
                &&& forall|i: int, j: int|
                    0 <= i < j < fired.len() ==> (#[trigger] fired[i]).when <= (#[trigger] fired[j]).when
                &&& fired.to_multiset().count(t) == (if t.when <= old(l).now {
                    old(l).timeouts@.count(t)
                } else {
                    0
                })
            },
        (*final(l) == Loop {
            timeouts: final(l).timeouts,
            scheduled: final(l).scheduled,
            ..*old(l)
        }),
{
    broadcast use vstd::multiset::group_multiset_axioms;

    let fired = choose|fired: Seq<TimeoutHolder>|
        {
            &&& #[trigger] fires(l.timeouts@, l.now, fired)
            &&& final(l).scheduled@ == l.scheduled@ + fired.map_values(timeout_task())
        };
    assert(over(l.now)(t) == (t.when <= l.now));
    assert(not_over(l.now)(t) == (t.when > l.now));
    lemma_queued_behind(l.scheduled@, final(l).scheduled@, fired);
}

/// The tasks made of timeouts.
proof fn lemma_queued_behind<D>(
    before: Seq<Task<D>>,
    after: Seq<Task<D>>,
    fired: Seq<TimeoutHolder>,
)
    requires
        after == before + fired.map_values(timeout_task()),
        crate::loop_timers::in_order(fired),
    ensures
        after.len() == before.len() + fired.len(),
        after.take(before.len() as int) == before,
        forall|i: int|
            0 <= i < fired.len() ==> (#[trigger] after[before.len() + i]).recipient
                == fired[i].recipient && after[before.len() + i].param == TaskParam::<D>::Timeout(
                fired[i].id,
            ),
        forall|i: int, j: int|
            0 <= i < j < fired.len() ==> (#[trigger] fired[i]).when <= (#[trigger] fired[j]).when,
{
    assert(after.take(before.len() as int) =~= before);
    assert forall|i: int| 0 <= i < fired.len() implies (#[trigger] after[before.len()
        + i]).recipient == fired[i].recipient && after[before.len() + i].param == TaskParam::<
        D,
    >::Timeout(fired[i].id) by {
        assert(after[before.len() + i] == timeout_task::<D>()(fired[i]));
    }
}

/// Gathering ends by queueing the timeouts whose time has come, in order, behind everything already
/// there. Those of living events do so exactly as often as they waited, the others keep waiting.
///
/// Only if there's nothing at all, the first of the events waiting for the loop to be idle is
/// queued, and just that one stops waiting.
pub proof fn law_gathering_ends<C, E, D, I>(
    l: &mut Loop<C, E, D, I>,
    t: TimeoutHolder,
    dead: nat,
    alive: nat,
)
    requires
        l.wf(),
        call_ensures(Loop::<C, E, D, I>::tasks_gather_finish, (l,), ()),
        alive == l.timeouts@.filter(|u: TimeoutHolder| l.alive(u.recipient)).len(),
        dead == l.timeouts@.filter(|u: TimeoutHolder| !l.alive(u.recipient)).len(),
    ensures
        final(l).timeouts_dead == (if dead > 5 && alive * 3 < dead {
            0
        } else {
            dead
        }),
        final(l).wf(),
        exists|fired: Seq<TimeoutHolder>|
            #![trigger fired.len()]
            {
                &&& old(l).alive(t.recipient) && t.when <= old(l).now
                    ==> fired.to_multiset().count(t) == old(l).timeouts@.count(t)
                &&& fired.to_multiset().count(t) <= old(l).timeouts@.count(t)
                &&& t.when > old(l).now ==> fired.to_multiset().count(t) == 0
                &&& t.when <= old(l).now && !(dead > 5 && alive * 3 < dead)
                    ==> fired.to_multiset().count(t) == old(l).timeouts@.count(t)
                &&& !old(l).alive(t.recipient) && dead > 5 && alive * 3 < dead
                    ==> fired.to_multiset().count(t) == 0
                &&& old(l).scheduled@.len() + fired.len() > 0 || old(l).want_idle@.len() == 0
                    ==> {
                    &&& final(l).scheduled@.len() == old(l).scheduled@.len() + fired.len()
                    &&& final(l).scheduled@.take(old(l).scheduled@.len() as int) == old(l).scheduled@
                    &&& forall|i: int|
                        0 <= i < fired.len() ==> (#[trigger] final(l).scheduled@[old(l).scheduled@.len() + i]).recipient
                            == fired[i].recipient && final(l).scheduled@[old(l).scheduled@.len() + i].param == TaskParam::<D>::Timeout(
                            fired[i].id,
                        )
                    &&& forall|i: int, j: int|
                        0 <= i < j < fired.len() ==> (#[trigger] fired[i]).when <= (#[trigger] fired[j]).when
                    &&& final(l).want_idle@ == old(l).want_idle@
                }
                &&& old(l).scheduled@.len() + fired.len() == 0 && old(l).want_idle@.len() > 0 ==> {
                    &&& final(l).scheduled@.len() == 1
                    &&& final(l).scheduled@[0].recipient == old(l).want_idle@[0]
                    &&& final(l).scheduled@[0].param is Idle
                    &&& final(l).want_idle@ == old(l).want_idle@.skip(1)
                }
                &&& final(l).timeouts_inserted == final(l).timeouts@.len() + fired.len()
            },
        t.when <= old(l).now ==> final(l).timeouts@.count(t) == 0,
        t.when > old(l).now && old(l).alive(t.recipient) ==> final(l).timeouts@.count(t) == old(l).timeouts@.count(t),
        t.when > old(l).now && !(dead > 5 && alive * 3 < dead) ==> final(l).timeouts@.count(t)
            == old(l).timeouts@.count(t),
        final(l).timeouts@.count(t) <= old(l).timeouts@.count(t),
        final(l).timeouts_fired == 0,
        (*final(l) == Loop {
            timeouts: final(l).timeouts,
            timeouts_dead: final(l).timeouts_dead,
            timeouts_fired: final(l).timeouts_fired,
            timeouts_inserted: final(l).timeouts_inserted,
            scheduled: final(l).scheduled,
            want_idle: final(l).want_idle,
            ..*old(l)
        }),
{
    broadcast use vstd::multiset::group_multiset_axioms;
    broadcast use vstd::seq_lib::group_to_multiset_ensures;

    let fired = choose|fired: Seq<TimeoutHolder>| #[trigger]
        Loop::gathered(*l, *final(l), fired);
    lemma_pruned_count(*l, t, dead, alive);
    assert(over(l.now)(t) == (t.when <= l.now));
    assert(not_over(l.now)(t) == (t.when > l.now));
    let p = l.pruned();
    assert(p =~= p.filter(over(l.now)).add(p.filter(not_over(l.now))));
    assert(fired.to_multiset().len() == fired.len());
    let queue = l.scheduled@ + fired.map_values(timeout_task::<D>());
    assert(queue.len() == l.scheduled@.len() + fired.len());
    if queue.len() == 0 && l.want_idle@.len() > 0 {
        assert(l.want_idle@.drop_first() =~= l.want_idle@.skip(1));
    } else {
        lemma_queued_behind(l.scheduled@, final(l).scheduled@, fired);
    }
}

/// Whether timeouts wait in the queue is told by what is there.
pub proof fn law_queued_timeouts_are_seen<C, E, D, I>(
    l: &Loop<C, E, D, I>,
    scheduled: bool,
    i: int,
)
    requires
        call_ensures(Loop::<C, E, D, I>::timeouts_scheduled, (l,), scheduled),
    ensures
        0 <= i < l.scheduled@.len() && l.scheduled@[i].param is Timeout ==> scheduled,
        scheduled ==> exists|j: int|
            0 <= j < l.scheduled@.len() && (#[trigger] l.scheduled@[j]).param is Timeout,
{
}

/// There's room for another IO as long as its token fits.
pub proof fn law_room_for_ios<C, E, D, I>(l: Loop<C, E, D, I>)
    ensures
        l.ios.free@.len() > 0 ==> (l.io_room() <==> l.ios.free@.last() + 2 <= usize::MAX),
        l.ios.free@.len() == 0 ==> (l.io_room() <==> l.ios.data@.len() + 2 <= usize::MAX),
{
}

/// Setting the time changes nothing else.
pub proof fn law_time_is_kept<C, E, D, I>(l: &mut Loop<C, E, D, I>, now: i128, read: &i128)
    requires
        call_ensures(Loop::<C, E, D, I>::now_set, (l, now), ()),
        call_ensures(Loop::<C, E, D, I>::now, (&*final(l),), read),
    ensures
        *read == now,
        (*final(l) == Loop { now, ..*old(l) }),
{
}

/// A registered IO belongs to the event that registered it, under an id nobody had. If watching it
/// failed, nothing is left of it.
pub proof fn law_registered_io_is_owned<C, E, D, I>(
    l: &mut Loop<C, E, D, I>,
    token: usize,
    handle: Handle,
    io: I,
    registered: Result<(), std::io::Error>,
    r: Result<IoId, Error>,
    other: Handle,
    k: usize,
)
    requires
        l.wf(),
        l.alive(handle),
        call_ensures(Loop::<C, E, D, I>::io_token, (&*l,), token),
        call_ensures(Loop::<C, E, D, I>::io_register_any, (l, handle, io, registered), r),
    ensures
        final(l).wf(),
        r is Ok <==> registered is Ok,
        registered is Err ==> r == Err::<IoId, Error>(Error::Io(registered->Err_0)),
        r is Ok ==> ({
            let idx = r->Ok_0.index();
            &&& token == idx + 2
            &&& !old(l).ios@.dom().contains(idx)
            &&& final(l).ios@.dom().contains(idx)
            &&& final(l).ios@[idx] == handle
            &&& final(l).holder(handle).ios@.dom().contains(idx as usize)
            &&& final(l).holder(handle).ios@[idx as usize] == io
            &&& k != idx ==> (final(l).ios@.dom().contains(k as int) <==> old(l).ios@.dom().contains(k as int))
            &&& k != idx && old(l).ios@.dom().contains(k as int) ==> final(l).ios@[k as int]
                == old(l).ios@[k as int]
            &&& k != idx ==> (final(l).holder(handle).ios@.dom().contains(k) <==> old(l).holder(
                handle,
            ).ios@.dom().contains(k))
            &&& k != idx && old(l).holder(handle).ios@.dom().contains(k) ==> final(l).holder(
                handle,
            ).ios@[k] == old(l).holder(handle).ios@[k]
            &&& (final(l).holder(handle) == EvHolder {
                ios: final(l).holder(handle).ios,
                ..old(l).holder(handle)
            })
        }),
        r is Err ==> {
            &&& final(l).events == old(l).events
            &&& final(l).ios@.dom().contains(k as int) <==> old(l).ios@.dom().contains(k as int)
            &&& old(l).ios@.dom().contains(k as int) ==> final(l).ios@[k as int] == old(l).ios@[k as int]
            &&& final(l).ios.next_index() == old(l).ios.next_index()
        },
        other.id != handle.id ==> (final(l).alive(other) <==> old(l).alive(other)),
        other.id != handle.id && old(l).alive(other) ==> final(l).holder(other) == old(l).holder(
            other,
        ),
        final(l).alive(handle),
        (*final(l) == Loop { events: final(l).events, ios: final(l).ios, ..*old(l) }),
{
}

/// An IO that is removed comes out and doesn't belong to the event any more. Its id is held, but
/// isn't free. The other IOs stay, and one that isn't there can't be removed.
pub proof fn law_removed_io_comes_out<C, E, D, I>(
    l: &mut Loop<C, E, D, I>,
    handle: Handle,
    id: IoId,
    r: Result<I, Error>,
    other: Handle,
    k: usize,
)
    requires
        l.wf(),
        l.alive(handle),
        0 <= id.index() <= usize::MAX,
        call_ensures(Loop::<C, E, D, I>::io_remove, (l, handle, id), r),
    ensures
        final(l).wf(),
        r is Ok <==> old(l).holder(handle).ios@.dom().contains(id.index() as usize),
        r is Err ==> r->Err_0 == Error::MissingIo && *final(l) == *old(l),
        r is Ok ==> {
            &&& r->Ok_0 == old(l).holder(handle).ios@[id.index() as usize]
            &&& final(l).ios_released@.contains(k) <==> old(l).ios_released@.contains(k) || k
                == id.index()
            &&& final(l).holder(handle).ios@.dom().contains(k) <==> old(l).holder(
                handle,
            ).ios@.dom().contains(k) && k != id.index()
            &&& final(l).holder(handle).ios@.dom().contains(k) ==> final(l).holder(
                handle,
            ).ios@[k] == old(l).holder(handle).ios@[k]
            &&& (final(l).holder(handle) == EvHolder {
                ios: final(l).holder(handle).ios,
                ..old(l).holder(handle)
            })
        },
        final(l).alive(handle),
        other.id != handle.id ==> (final(l).alive(other) <==> old(l).alive(other)),
        other.id != handle.id && old(l).alive(other) ==> final(l).holder(other) == old(l).holder(
            other,
        ),
        (*final(l) == Loop {
            events: final(l).events,
            ios_released: final(l).ios_released,
            ..*old(l)
        }),
{
}

/// What is written through the access to an IO is there afterwards, and nothing else changes.
pub proof fn law_written_io_is_kept<C, E, D, I>(
    l: &mut Loop<C, E, D, I>,
    handle: Handle,
    id: IoId,
    io: &mut I,
    k: usize,
    other: Handle,
)
    requires
        l.wf(),
        l.alive(handle),
        0 <= id.index() <= usize::MAX,
        call_ensures(Loop::<C, E, D, I>::io_mut, (l, handle, id), Ok(io)),
    ensures
        old(l).holder(handle).ios@.dom().contains(id.index() as usize),
        *old(io) == old(l).holder(handle).ios@[id.index() as usize],
        final(l).holder(handle).ios@.dom().contains(k) <==> old(l).holder(
            handle,
        ).ios@.dom().contains(k),
        final(l).holder(handle).ios@[id.index() as usize] == *final(io),
        k != id.index() && old(l).holder(handle).ios@.dom().contains(k) ==> final(l).holder(
            handle,
        ).ios@[k] == old(l).holder(handle).ios@[k],
        (final(l).holder(handle) == EvHolder {
            ios: final(l).holder(handle).ios,
            ..old(l).holder(handle)
        }),
        other.id != handle.id ==> (final(l).alive(other) <==> old(l).alive(other)),
        other.id != handle.id && old(l).alive(other) ==> final(l).holder(other) == old(l).holder(
            other,
        ),
        (*final(l) == Loop { events: final(l).events, ..*old(l) }),
{
}

/// An access to an IO hands that very IO over and keeps what is written to it. Its result is the
/// result, unless it wanted an IO of another type. There's no access to what the event doesn't own.
pub proof fn law_accessed_io_is_kept<C, E, D, I, R, F: FnOnce(&mut I) -> Option<Result<R, Error>>>(
    l: &mut Loop<C, E, D, I>,
    handle: Handle,
    id: IoId,
    f: F,
    r: Result<R, Error>,
)
    requires
        l.wf(),
        l.alive(handle),
        0 <= id.index() <= usize::MAX,
        call_ensures(Loop::<C, E, D, I>::with_io::<R, F>, (l, handle, id, f), r),
    ensures
        !old(l).holder(handle).ios@.dom().contains(id.index() as usize) ==> r == Err::<R, Error>(
            Error::MissingIo,
        ) && *final(l) == *old(l),
        old(l).holder(handle).ios@.dom().contains(id.index() as usize) ==> exists|
            io: &mut I,
            found: Option<Result<R, Error>>,
        |
            {
                &&& #[trigger] f.ensures((io,), found)
                &&& *io == old(l).holder(handle).ios@[id.index() as usize]
                &&& final(l).holder(handle).ios@[id.index() as usize] == *final(io)
                &&& found is Some ==> r == found->0
                &&& found is None ==> r == Err::<R, Error>(Error::IoType)
            },
        final(l).alive(handle),
        forall|k: usize|
            k != id.index() && #[trigger] old(l).holder(handle).ios@.dom().contains(k) ==> final(
                l).holder(handle).ios@[k] == old(l).holder(handle).ios@[k],
        (final(l).holder(handle) == EvHolder {
            ios: final(l).holder(handle).ios,
            ..old(l).holder(handle)
        }),
        (*final(l) == Loop { events: final(l).events, ..*old(l) }),
{
}

/// Only the owner gets to an IO.
pub proof fn law_only_the_owner_gets_io<C, E, D, I>(
    l: &Loop<C, E, D, I>,
    handle: Handle,
    id: IoId,
    idx: Result<usize, Error>,
    io: Result<&I, Error>,
    token: usize,
    known: bool,
)
    requires
        l.alive(handle),
        0 <= id.index() <= usize::MAX,
        call_ensures(Loop::<C, E, D, I>::io_idx, (l, handle, id), idx),
        call_ensures(Loop::<C, E, D, I>::io_update, (l, handle, id), io),
        call_ensures(Loop::<C, E, D, I>::io_known, (l, token), known),
    ensures
        idx is Ok <==> l.holder(handle).ios@.dom().contains(id.index() as usize),
        idx is Ok ==> idx->Ok_0 == id.index(),
        idx is Err ==> idx->Err_0 == Error::MissingIo,
        io is Ok <==> idx is Ok,
        io is Ok ==> *io->Ok_0 == l.holder(handle).ios@[id.index() as usize],
        io is Err ==> io->Err_0 == Error::MissingIo,
        known <==> token >= 2 && l.ios@.dom().contains(token - 2),
{
}

/// The readiness of an IO is put behind what is in the queue, for its owner. The things the loop
/// watches itself leave everything alone.
pub proof fn law_readiness_is_queued<C, E, D, I>(
    l: &mut Loop<C, E, D, I>,
    token: usize,
    ready: Ready,
    source: Source,
)
    requires
        l.wf(),
        token >= 2 ==> l.ios@.dom().contains(token - 2),
        call_ensures(Loop::<C, E, D, I>::tasks_gather_io, (l, token, ready), source),
    ensures
        token == 0 ==> source == Source::Channel && *final(l) == *old(l),
        token == 1 ==> source == Source::Signal && *final(l) == *old(l),
        token >= 2 ==> {
            &&& source == Source::Io
            &&& final(l).scheduled@.len() == old(l).scheduled@.len() + 1
            &&& final(l).scheduled@.drop_last() == old(l).scheduled@
            &&& final(l).scheduled@.last().recipient == old(l).ios@[token - 2]
            &&& final(l).scheduled@.last().param is Io
            &&& final(l).scheduled@.last().param->Io_0.index() == token - 2
            &&& final(l).scheduled@.last().param->Io_1 == ready
            &&& (*final(l) == Loop { scheduled: final(l).scheduled, ..*old(l) })
        },
{
    if token >= 2 {
        assert(final(l).scheduled@.drop_last() =~= l.scheduled@);
    }
}

/// Whether data can be sent to an event depends on whether it lives and on what it expects.
pub proof fn law_only_expected_is_accepted<C, E, D, I>(
    l: &Loop<C, E, D, I>,
    handle: Handle,
    tp: &TypeId,
    r: Result<(), Error>,
    channel: Result<Channel, Error>,
)
    requires
        call_ensures(Loop::<C, E, D, I>::msg_type_check, (l, handle, tp), r),
        call_ensures(Loop::<C, E, D, I>::channel, (l, handle), channel),
    ensures
        !l.alive(handle) ==> r == Err::<(), Error>(Error::Missing),
        l.alive(handle) && l.holder(handle).expected_messages@.contains(*tp) ==> r == Ok::<
            (),
            Error,
        >(()),
        l.alive(handle) && !l.holder(handle).expected_messages@.contains(*tp) ==> r == Err::<
            (),
            Error,
        >(Error::MsgUnexpected),
        l.alive(handle) ==> channel is Ok && channel->Ok_0.handle == handle,
        !l.alive(handle) ==> channel == Err::<Channel, Error>(Error::Missing),
{
}

/// Sent data go to the end of the queue, for the event they were sent to, with who sent them. They
/// do so exactly if the event lives and expects them, otherwise nothing happens.
pub proof fn law_sent_goes_to_the_end<C, E, D, I>(
    l: &mut Loop<C, E, D, I>,
    from: Option<Handle>,
    handle: Handle,
    data: D,
    tp: TypeId,
    r: Result<(), Error>,
)
    requires
        l.wf(),
        call_ensures(Loop::<C, E, D, I>::send_impl_sender, (l, from, handle, data, tp), r),
    ensures
        r is Ok <==> old(l).alive(handle) && old(l).holder(handle).expected_messages@.contains(tp),
        !old(l).alive(handle) ==> r == Err::<(), Error>(Error::Missing),
        old(l).alive(handle) && r is Err ==> r->Err_0 == Error::MsgUnexpected,
        r is Err ==> *final(l) == *old(l),
        r is Ok ==> {
            &&& final(l).scheduled@.len() == old(l).scheduled@.len() + 1
            &&& final(l).scheduled@.take(old(l).scheduled@.len() as int) == old(l).scheduled@
            &&& final(l).scheduled@.last().recipient == handle
            &&& final(l).scheduled@.last().param is Message
            &&& final(l).scheduled@.last().param->Message_0.data == data
            &&& final(l).scheduled@.last().param->Message_0.real_type == tp
            &&& final(l).scheduled@.last().param->Message_0.mode == DeliveryMode::Send(from)
        },
        (*final(l) == Loop { scheduled: final(l).scheduled, ..*old(l) }),
{
    if r is Ok {
        assert(final(l).scheduled@.take(l.scheduled@.len() as int) =~= l.scheduled@);
    }
}

/// What comes from another thread goes to the end of the queue, behind everything that waits there.
/// Results of background jobs always do, other messages exactly if the event lives and expects them.
/// The rest disappears without a trace.
pub proof fn law_remote_goes_to_the_end<C, E, D, I>(
    l: &mut Loop<C, E, D, I>,
    message: RemoteMessage<D>,
)
    requires
        l.wf(),
        call_ensures(Loop::<C, E, D, I>::remote_message, (l, message), ()),
    ensures
        ({
            let passes = message.mode is Background || (old(l).alive(message.recipient) && old(l).holder(message.recipient).expected_messages@.contains(message.real_type));
            &&& !passes ==> *final(l) == *old(l)
            &&& passes ==> {
                &&& final(l).scheduled@.len() == old(l).scheduled@.len() + 1
                &&& final(l).scheduled@.take(old(l).scheduled@.len() as int) == old(l).scheduled@
                &&& final(l).scheduled@.last().recipient == message.recipient
                &&& final(l).scheduled@.last().param is Message
                &&& final(l).scheduled@.last().param->Message_0.data == message.data
                &&& final(l).scheduled@.last().param->Message_0.real_type == message.real_type
                &&& final(l).scheduled@.last().param->Message_0.mode == message.mode
            }
        }),
        (*final(l) == Loop { scheduled: final(l).scheduled, ..*old(l) }),
{
    if final(l).scheduled@.len() > l.scheduled@.len() {
        assert(final(l).scheduled@.take(l.scheduled@.len() as int) =~= l.scheduled@);
    }
}

/// Two messages read from a channel one after another are in the queue in the same order.
pub proof fn law_remote_keep_their_order<C, E, D, I>(
    a: &mut Loop<C, E, D, I>,
    b: &mut Loop<C, E, D, I>,
    first: RemoteMessage<D>,
    second: RemoteMessage<D>,
)
    requires
        a.wf(),
        call_ensures(Loop::<C, E, D, I>::remote_message, (a, first), ()),
        *b == *final(a),
        call_ensures(Loop::<C, E, D, I>::remote_message, (b, second), ()),
        a.alive(first.recipient),
        a.holder(first.recipient).expected_messages@.contains(first.real_type),
        a.alive(second.recipient),
        a.holder(second.recipient).expected_messages@.contains(second.real_type),
    ensures
        final(b).scheduled@.len() == old(a).scheduled@.len() + 2,
        final(b).scheduled@[old(a).scheduled@.len() as int].recipient == first.recipient,
        final(b).scheduled@[old(a).scheduled@.len() as int].param->Message_0.data == first.data,
        final(b).scheduled@[(old(a).scheduled@.len() + 1) as int].recipient == second.recipient,
        final(b).scheduled@[(old(a).scheduled@.len() + 1) as int].param->Message_0.data == second.data,
{
}

/// Posted data get to the event with who posted them. They are refused before that if the event
/// doesn't live, doesn't expect them or is busy, and nothing happens then.
pub proof fn law_posting_is_refused<
    C,
    E,
    D,
    I,
    F: FnOnce(&mut E, &mut Loop<C, E, D, I>, Handle, Callback<D>) -> Result<
        bool,
        Error,
    >,
    S: FnOnce(&mut C, Outcome<E, I>) -> Result<(), Error>,
>(
    l: &mut Loop<C, E, D, I>,
    from: Option<Handle>,
    handle: Handle,
    data: D,
    tp: TypeId,
    f: F,
    settle: S,
    r: Result<(), Error>,
)
    requires
        l.wf(),
        call_ensures(
            Loop::<C, E, D, I>::post_impl_sender::<F, S>,
            (l, from, handle, data, tp, f, settle),
            r,
        ),
    ensures
        !old(l).alive(handle) ==> r == Err::<(), Error>(Error::Missing) && *final(l) == *old(l),
        old(l).alive(handle) && !old(l).holder(handle).expected_messages@.contains(tp) ==> r
            == Err::<(), Error>(Error::MsgUnexpected) && *final(l) == *old(l),
        old(l).alive(handle) && old(l).holder(handle).expected_messages@.contains(tp) && old(l).holder(handle).event@ is None ==> r == Err::<(), Error>(Error::Busy) && *final(l)
            == *old(l),
        ({
            let what = Loop::<C, E, D, I>::posted(from, data, tp);
            &&& what is Run
            &&& what->Run_0 is Message
            &&& what->Run_0->Message_0.data == data
            &&& what->Run_0->Message_0.real_type == tp
            &&& what->Run_0->Message_0.mode == DeliveryMode::Post(from)
        }),
{
}

/// A call of an event that doesn't live or is busy is refused and nothing happens.
pub proof fn law_calling_is_refused<
    C,
    E,
    D,
    I,
    F: FnOnce(&mut E, &mut Loop<C, E, D, I>, Handle, Callback<D>) -> Result<
        bool,
        Error,
    >,
    S: FnOnce(&mut C, Outcome<E, I>) -> Result<(), Error>,
>(
    l: &mut Loop<C, E, D, I>,
    handle: Handle,
    what: Callback<D>,
    f: F,
    settle: S,
    r: Result<(), Error>,
)
    requires
        l.wf(),
        call_ensures(Loop::<C, E, D, I>::event_call::<F, S>, (l, handle, what, f, settle), r),
    ensures
        !old(l).alive(handle) ==> r == Err::<(), Error>(Error::Missing) && *final(l) == *old(l),
        old(l).alive(handle) && old(l).holder(handle).event@ is None ==> r == Err::<(), Error>(
            Error::Busy,
        ) && *final(l) == *old(l),
{
}

/// A call hands the event itself to the callback, with the loop around it, and does what it responds.
/// What became of the event is settled, and the result of that is the result of the call.
pub proof fn law_call_reaches_the_event<
    C,
    E,
    D,
    I,
    F: FnOnce(&mut E, &mut Loop<C, E, D, I>, Handle, Callback<D>) -> Result<
        bool,
        Error,
    >,
    S: FnOnce(&mut C, Outcome<E, I>) -> Result<(), Error>,
>(
    l: &mut Loop<C, E, D, I>,
    handle: Handle,
    what: Callback<D>,
    f: F,
    settle: S,
    r: Result<(), Error>,
)
    requires
        l.wf(),
        l.alive(handle),
        l.holder(handle).event@ is Some,
        call_ensures(Loop::<C, E, D, I>::event_call::<F, S>, (l, handle, what, f, settle), r),
    ensures
        exists|
            ev: &mut E,
            inside: &mut Loop<C, E, D, I>,
            response: Result<bool, Error>,
            end: Loop<C, E, D, I>,
            outcome: Outcome<E, I>,
            c: &mut C,
        |
            {
                &&& Some(*ev) == old(l).holder(handle).event@
                &&& inside.alive(handle)
                &&& inside.holder(handle).event@ is None
                &&& inside.scheduled@ == old(l).scheduled@
                &&& inside.context == old(l).context
                &&& #[trigger] f.ensures((ev, inside, handle, what), response)
                &&& #[trigger] Loop::ended(*final(inside), end, handle, *final(ev), response, outcome)
                &&& *c == end.context
                &&& #[trigger] settle.ensures((c, outcome), r)
                &&& (*final(l) == Loop { context: *final(c), ..end })
                &&& response == Ok::<bool, Error>(true) <==> outcome is Kept
                &&& response == Ok::<bool, Error>(false) <==> outcome is Killed
                &&& response is Err <==> outcome is Failed
                &&& response is Err ==> outcome->error == response->Err_0
                &&& response is Ok ==> r is Ok
                &&& final(l).alive(handle) <==> response == Ok::<bool, Error>(true)
                &&& response == Ok::<bool, Error>(true) ==> final(l).holder(handle).event@ == Some(
                    *final(ev),
                )
                &&& outcome is Killed ==> outcome->Killed_event == *final(ev)
                &&& outcome is Failed ==> outcome->Failed_event == *final(ev)
                &&& final(l).scheduled@ == final(inside).scheduled@
                &&& final(l).timeouts@ == final(inside).timeouts@
            },
{
}

/// Posted data get to the event right away, before anything that waits in the queue, with who posted
/// them.
pub proof fn law_post_reaches_the_event<
    C,
    E,
    D,
    I,
    F: FnOnce(&mut E, &mut Loop<C, E, D, I>, Handle, Callback<D>) -> Result<
        bool,
        Error,
    >,
    S: FnOnce(&mut C, Outcome<E, I>) -> Result<(), Error>,
>(
    l: &mut Loop<C, E, D, I>,
    from: Option<Handle>,
    handle: Handle,
    data: D,
    tp: TypeId,
    f: F,
    settle: S,
    r: Result<(), Error>,
)
    requires
        l.wf(),
        l.alive(handle),
        l.holder(handle).expected_messages@.contains(tp),
        l.holder(handle).event@ is Some,
        call_ensures(
            Loop::<C, E, D, I>::post_impl_sender::<F, S>,
            (l, from, handle, data, tp, f, settle),
            r,
        ),
    ensures
        exists|
            ev: &mut E,
            inside: &mut Loop<C, E, D, I>,
            response: Result<bool, Error>,
            end: Loop<C, E, D, I>,
            outcome: Outcome<E, I>,
            c: &mut C,
        |
            {
                &&& Some(*ev) == old(l).holder(handle).event@
                &&& inside.alive(handle)
                &&& inside.holder(handle).event@ is None
                &&& inside.scheduled@ == old(l).scheduled@
                &&& inside.context == old(l).context
                &&& #[trigger] f.ensures((ev, inside, handle, Loop::<C, E, D, I>::posted(from, data, tp)), response)
                &&& #[trigger] Loop::ended(*final(inside), end, handle, *final(ev), response, outcome)
                &&& *c == end.context
                &&& #[trigger] settle.ensures((c, outcome), r)
                &&& (*final(l) == Loop { context: *final(c), ..end })
                &&& response == Ok::<bool, Error>(true) <==> outcome is Kept
                &&& response == Ok::<bool, Error>(false) <==> outcome is Killed
                &&& response is Err <==> outcome is Failed
                &&& response is Err ==> outcome->error == response->Err_0
                &&& response is Ok ==> r is Ok
                &&& final(l).alive(handle) <==> response == Ok::<bool, Error>(true)
                &&& response == Ok::<bool, Error>(true) ==> final(l).holder(handle).event@ == Some(
                    *final(ev),
                )
                &&& outcome is Killed ==> outcome->Killed_event == *final(ev)
                &&& outcome is Failed ==> outcome->Failed_event == *final(ev)
                &&& final(l).scheduled@ == final(inside).scheduled@
                &&& final(l).timeouts@ == final(inside).timeouts@
            },
{
}

/// An inserted event is called with its `init` under the handle it got, which is the result unless
/// settling of the callback failed.
pub proof fn law_insertion_calls_init<
    C,
    E,
    D,
    I,
    F: FnOnce(&mut E, &mut Loop<C, E, D, I>, Handle, Callback<D>) -> Result<
        bool,
        Error,
    >,
    S: FnOnce(&mut C, Outcome<E, I>) -> Result<(), Error>,
>(l: &mut Loop<C, E, D, I>, event: E, f: F, settle: S, r: Result<Handle, Error>, handle: Handle)
    requires
        l.wf(),
        handle == l.next_handle(),
        call_ensures(Loop::<C, E, D, I>::insert_exact::<F, S>, (l, event, f, settle), r),
    ensures
        !old(l).alive(handle),
        r is Ok ==> r->Ok_0 == handle,
        exists|
            ev: &mut E,
            inside: &mut Loop<C, E, D, I>,
            response: Result<bool, Error>,
            end: Loop<C, E, D, I>,
            outcome: Outcome<E, I>,
            c: &mut C,
            settled: Result<(), Error>,
        |
            {
                &&& Some(*ev) == Some(event)
                &&& inside.alive(handle)
                &&& inside.holder(handle).event@ is None
                &&& inside.scheduled@ == old(l).scheduled@
                &&& inside.context == old(l).context
                &&& #[trigger] f.ensures((ev, inside, handle, Callback::Init), response)
                &&& #[trigger] Loop::ended(*final(inside), end, handle, *final(ev), response, outcome)
                &&& *c == end.context
                &&& #[trigger] settle.ensures((c, outcome), settled)
                &&& (*final(l) == Loop { context: *final(c), ..end })
                &&& response == Ok::<bool, Error>(true) <==> outcome is Kept
                &&& response == Ok::<bool, Error>(false) <==> outcome is Killed
                &&& response is Err <==> outcome is Failed
                &&& response is Err ==> outcome->error == response->Err_0
                &&& response is Ok ==> settled is Ok
                &&& final(l).alive(handle) <==> response == Ok::<bool, Error>(true)
                &&& response == Ok::<bool, Error>(true) ==> final(l).holder(handle).event@ == Some(
                    *final(ev),
                )
                &&& outcome is Killed ==> outcome->Killed_event == *final(ev)
                &&& outcome is Failed ==> outcome->Failed_event == *final(ev)
                &&& final(l).scheduled@ == final(inside).scheduled@
                &&& final(l).timeouts@ == final(inside).timeouts@
                &&& settled is Ok <==> r is Ok
                &&& settled is Err ==> r->Err_0 == settled->Err_0
            },
{
}

/// A step of the loop calls the event of the first task for a living one, with exactly that task. It
/// is off the queue by then, together with those for dead events before it.
///
/// If that event is busy, the step fails, and if the task is about an IO it lost, nothing happens.
/// Only if there's no such task at all, tasks need to be gathered.
pub proof fn law_step_calls_the_event<
    C,
    E,
    D,
    I,
    F: FnOnce(&mut E, &mut Loop<C, E, D, I>, Handle, Callback<D>) -> Result<
        bool,
        Error,
    >,
    S: FnOnce(&mut C, Outcome<E, I>) -> Result<(), Error>,
>(l: &mut Loop<C, E, D, I>, f: F, settle: S, r: Option<Result<(), Error>>, k: int)
    requires
        l.wf(),
        call_ensures(Loop::<C, E, D, I>::run_one::<F, S>, (l, f, settle), r),
        0 <= k < l.scheduled@.len(),
        l.alive(l.scheduled@[k].recipient),
        forall|i: int| 0 <= i < k ==> !l.alive((#[trigger] l.scheduled@[i]).recipient),
    ensures
        r is Some,
        ({
            let task = old(l).scheduled@[k];
            let holder = old(l).holder(task.recipient);
            let lost = match task.param {
                TaskParam::Io(id, _) => !holder.ios@.dom().contains(id.index() as usize),
                _ => false,
            };
            &&& lost ==> r == Some(Ok::<(), Error>(())) && (*final(l) == Loop {
                scheduled: final(l).scheduled,
                ..*old(l)
            }) && final(l).scheduled@ == old(l).scheduled@.skip(k + 1)
            &&& !lost && holder.event@ is None ==> r == Some(Err::<(), Error>(Error::Busy))
                && final(l).scheduled@ == old(l).scheduled@.skip(k + 1)
            &&& !lost && holder.event@ is Some ==> exists|
                ev: &mut E,
                inside: &mut Loop<C, E, D, I>,
                response: Result<bool, Error>,
                end: Loop<C, E, D, I>,
                outcome: Outcome<E, I>,
                c: &mut C,
            |
                {
                    &&& Some(*ev) == holder.event@
                    &&& inside.alive(task.recipient)
                    &&& inside.holder(task.recipient).event@ is None
                    &&& inside.scheduled@ == old(l).scheduled@.skip(k + 1)
                    &&& inside.context == old(l).context
                    &&& #[trigger] f.ensures(
                        (ev, inside, task.recipient, Callback::Run(task.param)),
                        response,
                    )
                    &&& #[trigger] Loop::ended(
                        *final(inside),
                        end,
                        task.recipient,
                        *final(ev),
                        response,
                        outcome,
                    )
                    &&& *c == end.context
                    &&& #[trigger] settle.ensures((c, outcome), r->0)
                    &&& (*final(l) == Loop { context: *final(c), ..end })
                    &&& response == Ok::<bool, Error>(true) <==> outcome is Kept
                    &&& response == Ok::<bool, Error>(false) <==> outcome is Killed
                    &&& response is Err <==> outcome is Failed
                    &&& response is Err ==> outcome->error == response->Err_0
                    &&& response is Ok ==> r->0 is Ok
                    &&& final(l).alive(task.recipient) <==> response == Ok::<bool, Error>(true)
                    &&& response == Ok::<bool, Error>(true) ==> final(l).holder(
                        task.recipient,
                    ).event@ == Some(*final(ev))
                }
        }),
{
    let task = l.scheduled@[k];
    let other = task.recipient;
    if r is None {
        assert(Loop::ran(*l, *final(l), Step::Gather));
        assert(!l.alive(l.scheduled@[k].recipient));
    } else if Loop::ran(*l, *final(l), Step::Done(r->0)) {
        law_step_takes_the_first_task(*l, *final(l), Step::Done(r->0), k, other);
    } else {
        let (mid, handle, event, param, ev, inside, response, end, outcome, c) = choose|
            mid: Loop<C, E, D, I>,
            handle: Handle,
            event: crate::stolen_cell::StolenData<E>,
            param: TaskParam<D>,
            ev: &mut E,
            inside: &mut Loop<C, E, D, I>,
            response: Result<bool, Error>,
            end: Loop<C, E, D, I>,
            outcome: Outcome<E, I>,
            c: &mut C,
        |
            {
                &&& #[trigger] Loop::ran(*l, mid, (Step::Call { handle, event, param }))
                &&& *inside == mid
                &&& *ev == event@
                &&& inside.wf() && inside.busy(handle)
                &&& #[trigger] f.ensures(
                    (ev, inside, handle, Callback::Run(param)),
                    response,
                )
                &&& final(inside).wf() && final(inside).busy(handle)
                &&& #[trigger] Loop::ended(
                    *final(inside),
                    end,
                    handle,
                    *final(ev),
                    response,
                    outcome,
                )
                &&& *c == end.context
                &&& #[trigger] settle.ensures((c, outcome), r->0)
                &&& response is Ok ==> r->0 == Ok::<(), Error>(())
                &&& (*final(l) == Loop { context: *final(c), ..end })
            };
        law_step_takes_the_first_task(*l, mid, Step::Call { handle, event, param }, k, other);
    }
}

/// Tasks need to be gathered exactly if there's none for a living event. All are dropped then and
/// nothing else happens.
pub proof fn law_no_step_without_tasks<
    C,
    E,
    D,
    I,
    F: FnOnce(&mut E, &mut Loop<C, E, D, I>, Handle, Callback<D>) -> Result<
        bool,
        Error,
    >,
    S: FnOnce(&mut C, Outcome<E, I>) -> Result<(), Error>,
>(l: &mut Loop<C, E, D, I>, f: F, settle: S, r: Option<Result<(), Error>>)
    requires
        l.wf(),
        call_ensures(Loop::<C, E, D, I>::run_one::<F, S>, (l, f, settle), r),
    ensures
        (forall|i: int|
            0 <= i < old(l).scheduled@.len() ==> !old(l).alive(
                (#[trigger] old(l).scheduled@[i]).recipient,
            )) ==> r is None,
        r is None ==> final(l).scheduled@.len() == 0 && (*final(l) == Loop {
            scheduled: final(l).scheduled,
            ..*old(l)
        }),
        r is None ==> forall|i: int|
            0 <= i < old(l).scheduled@.len() ==> !old(l).alive(
                (#[trigger] old(l).scheduled@[i]).recipient,
            ),
{
}

/// After an event says it expects a type, it does. What it expected before stays, and nobody else
/// expects anything else than before.
pub proof fn law_expected_from_then_on<C, E, D, I>(
    l: &mut Loop<C, E, D, I>,
    handle: Handle,
    tp: TypeId,
    x: TypeId,
    other: Handle,
)
    requires
        l.wf(),
        l.alive(handle),
        call_ensures(Loop::<C, E, D, I>::expect_message, (l, handle, tp), ()),
    ensures
        final(l).wf(),
        final(l).alive(handle),
        final(l).holder(handle).expected_messages@.contains(x) <==> old(l).holder(
            handle,
        ).expected_messages@.contains(x) || x == tp,
        (final(l).holder(handle) == EvHolder {
            expected_messages: final(l).holder(handle).expected_messages,
            ..old(l).holder(handle)
        }),
        other.id != handle.id ==> (final(l).alive(other) <==> old(l).alive(other)),
        other.id != handle.id && old(l).alive(other) ==> final(l).holder(other) == old(l).holder(
            other,
        ),
        (*final(l) == Loop { events: final(l).events, ..*old(l) }),
{
    let before = l.holder(handle).expected_messages@;
    let after = final(l).holder(handle).expected_messages@;
    if !before.contains(tp) {
        assert(after[before.len() as int] == tp);
        if before.contains(x) {
            let i = choose|i: int| 0 <= i < before.len() && before[i] == x;
            assert(after[i] == x);
        }
        if after.contains(x) && x != tp {
            let i = choose|i: int| 0 <= i < after.len() && after[i] == x;
            assert(before[i] == x);
        }
    }
}

/// Threads get started by the first request for them only, later ones change their number. Without
/// asking, there's one. Jobs are numbered one after another.
pub proof fn law_threads_and_jobs<C, E, D, I>(
    a: &mut Loop<C, E, D, I>,
    cnt: usize,
    change: PoolChange,
    b: &mut Loop<C, E, D, I>,
    id: BackgroundId,
    started: Option<PoolChange>,
)
    requires
        call_ensures(Loop::<C, E, D, I>::pool_thread_count_set, (a, cnt), change),
        call_ensures(Loop::<C, E, D, I>::background_submit, (b,), (id, started)),
    ensures
        old(a).pool_threads is None ==> change == PoolChange::Start(cnt),
        old(a).pool_threads is Some ==> change == PoolChange::Resize(cnt),
        (*final(a) == Loop { pool_threads: Some(cnt), ..*old(a) }),
        old(b).pool_threads is None ==> started == Some(PoolChange::Start(1)) && final(b).pool_threads == Some(1usize),
        old(b).pool_threads is Some ==> started is None && final(b).pool_threads == old(b).pool_threads,
        id.0 == old(b).background_generation,
        old(b).background_generation < u64::MAX ==> final(b).background_generation == id.0 + 1,
        old(b).background_generation == u64::MAX ==> final(b).background_generation == 0,
        (*final(b) == Loop {
            pool_threads: final(b).pool_threads,
            background_generation: final(b).background_generation,
            ..*old(b)
        }),
{
}

/// Enabling and disabling of a signal concerns only that one, and tells whether it made a
/// difference. Who registered for it doesn't change by either.
pub proof fn law_enabling_concerns_one_signal<C, E, D, I>(
    a: &mut Loop<C, E, D, I>,
    enabled: bool,
    b: &mut Loop<C, E, D, I>,
    disabled: bool,
    signal: Signal,
    n: i32,
)
    requires
        call_ensures(Loop::<C, E, D, I>::signal_enable, (a, signal), enabled),
        call_ensures(Loop::<C, E, D, I>::signal_disable, (b, signal), disabled),
    ensures
        enabled <==> !old(a).signal_mask@.contains(signal.num()),
        final(a).signal_mask@.contains(n) <==> old(a).signal_mask@.contains(n) || n
            == signal.num(),
        (*final(a) == Loop { signal_mask: final(a).signal_mask, ..*old(a) }),
        disabled <==> old(b).signal_mask@.contains(signal.num()),
        final(b).signal_mask@.contains(n) <==> old(b).signal_mask@.contains(n) && n
            != signal.num(),
        (*final(b) == Loop { signal_mask: final(b).signal_mask, ..*old(b) }),
{
}

/// An event that registers for a signal is among its recipients from then on, once. The others stay
/// as they were.
pub proof fn law_registered_for_a_signal<C, E, D, I>(
    l: &mut Loop<C, E, D, I>,
    handle: Handle,
    signal: Signal,
    number: i32,
    other: Handle,
)
    requires
        l.wf(),
        call_ensures(Loop::<C, E, D, I>::signal, (l, handle, signal), ()),
    ensures
        final(l).signal_recipients@.contains((number, other)) <==> old(l).signal_recipients@.contains((number, other)) || (number == signal.num() && other
            == handle),
        final(l).signal_recipients@.no_duplicates(),
        (*final(l) == Loop { signal_recipients: final(l).signal_recipients, ..*old(l) }),
{
    reveal(signals_wf);
    let before = l.signal_recipients@;
    let after = final(l).signal_recipients@;
    let p = (number, other);
    assert(final(l).wf());
    if !before.contains((signal.num(), handle)) {
        assert(after[before.len() as int] == (signal.num(), handle));
        if before.contains(p) {
            let i = choose|i: int| 0 <= i < before.len() && before[i] == p;
            assert(after[i] == p);
        }
        if after.contains(p) && p != (signal.num(), handle) {
            let i = choose|i: int| 0 <= i < after.len() && after[i] == p;
            assert(before[i] == p);
        }
    }
}

/// Exactly those registered for a signal are told about it, each once and about that signal. It is
/// behind everything that waits in the queue.
pub proof fn law_signal_is_told_to_all<C, E, D, I>(
    l: &mut Loop<C, E, D, I>,
    signal: Signal,
    handle: Handle,
)
    requires
        l.wf(),
        call_ensures(Loop::<C, E, D, I>::signal_deliver, (l, signal), ()),
    ensures
        final(l).wf(),
        ({
            &&& old(l).scheduled@.len() <= final(l).scheduled@.len()
            &&& final(l).scheduled@.take(old(l).scheduled@.len() as int) == old(l).scheduled@
            &&& forall|i: int|
                old(l).scheduled@.len() <= i < final(l).scheduled@.len() ==> (#[trigger] final(l).scheduled@[i]).param == TaskParam::<D>::Signal(signal)
            &&& forall|i: int, j: int|
                old(l).scheduled@.len() <= i < j < final(l).scheduled@.len() ==> (#[trigger] final(l).scheduled@[i]).recipient != (
                #[trigger] final(l).scheduled@[j]).recipient
        }),
        (exists|i: int|
            old(l).scheduled@.len() <= i < final(l).scheduled@.len() && (#[trigger] final(l).scheduled@[i]).recipient == handle) <==> old(l).signal_recipients@.contains(
            (signal.num(), handle),
        ),
        (*final(l) == Loop { scheduled: final(l).scheduled, ..*old(l) }),
{
    lemma_told_about(*l, *final(l), signal, handle);
}

/// Who is told about a signal.
proof fn lemma_told_about<C, E, D, I>(
    pre: Loop<C, E, D, I>,
    post: Loop<C, E, D, I>,
    signal: Signal,
    handle: Handle,
)
    requires
        pre.wf(),
        post.scheduled@ == pre.scheduled@ + signal_tasks(pre.signal_recipients@, signal),
    ensures
        ({
            &&& pre.scheduled@.len() <= post.scheduled@.len()
            &&& post.scheduled@.take(pre.scheduled@.len() as int) == pre.scheduled@
            &&& forall|i: int|
                pre.scheduled@.len() <= i < post.scheduled@.len() ==> (#[trigger] post.scheduled@[i]).param == TaskParam::<D>::Signal(signal)
            &&& forall|i: int, j: int|
                pre.scheduled@.len() <= i < j < post.scheduled@.len() ==> (#[trigger] post.scheduled@[i]).recipient != (
                #[trigger] post.scheduled@[j]).recipient
        }),
        (exists|i: int|
            pre.scheduled@.len() <= i < post.scheduled@.len() && (
            #[trigger] post.scheduled@[i]).recipient == handle)
            <==> pre.signal_recipients@.contains((signal.num(), handle)),
{
    reveal(signals_wf);
    let n = pre.scheduled@.len() as int;
    let all = pre.signal_recipients@;
    let f = wants(signal.num());
    let some = all.filter(f);
    let tasks = signal_tasks::<D>(all, signal);
    assert(post.scheduled@.take(n) =~= pre.scheduled@);
    crate::event_loop::lemma_filter_unique(all, f);
    assert forall|i: int| n <= i < post.scheduled@.len() implies (#[trigger] post.scheduled@[i])
        == (Task { recipient: some[i - n].1, param: TaskParam::<D>::Signal(signal) }) && f(
        some[i - n],
    ) && all.contains(some[i - n]) by {
        assert(post.scheduled@[i] == tasks[i - n]);
        assert(f(all.filter(f)[i - n]));
    }
    assert forall|i: int, j: int| n <= i < j < post.scheduled@.len() implies (
    #[trigger] post.scheduled@[i]).recipient != (#[trigger] post.scheduled@[j]).recipient by {
        assert(some[i - n] != some[j - n]);
    }
    if exists|i: int|
        n <= i < post.scheduled@.len() && (#[trigger] post.scheduled@[i]).recipient == handle {
        let i = choose|i: int|
            n <= i < post.scheduled@.len() && (#[trigger] post.scheduled@[i]).recipient == handle;
        assert(some[i - n] == (signal.num(), handle));
    }
    if all.contains((signal.num(), handle)) {
        let j = choose|j: int| 0 <= j < all.len() && all[j] == (signal.num(), handle);
        assert(f(all[j]));
        crate::laws::lemma_filter_keeps(all, f, j);
        let i = choose|i: int| 0 <= i < some.len() && some[i] == all[j];
        assert(post.scheduled@[n + i] == tasks[i]);
        assert(post.scheduled@[n + i].recipient == handle);
    }
}

/// A signal that was read is told to all who registered for it, unless it is about children, which
/// are to be gathered first. Errors and numbers of no signal change nothing.
pub proof fn law_read_signal<C, E, D, I>(
    l: &mut Loop<C, E, D, I>,
    read: SignalRead,
    r: Result<SignalStep, Error>,
    handle: Handle,
)
    requires
        l.wf(),
        call_ensures(Loop::<C, E, D, I>::signal_read, (l, read), r),
    ensures
        read is Nothing ==> r == Ok::<SignalStep, Error>(SignalStep::Stop) && *final(l) == *old(l),
        read is Failed ==> r == Err::<SignalStep, Error>(Error::Nix(read->Failed_0)) && *final(l)
            == *old(l),
        read is Number && !(1 <= read->Number_0 <= 31) ==> r is Err && r->Err_0 is Nix && *final(l) == *old(l),
        read is Number && 1 <= read->Number_0 <= 31 && read->Number_0 == old(l).sigchld.num()
            ==> r == Ok::<SignalStep, Error>(SignalStep::Children(old(l).sigchld)) && *final(l)
            == *old(l),
        read is Number && 1 <= read->Number_0 <= 31 && read->Number_0 != old(l).sigchld.num()
            ==> {
            &&& r == Ok::<SignalStep, Error>(SignalStep::More)
            &&& exists|signal: Signal|
                {
                    &&& #[trigger] signal.num() == read->Number_0
                    &&& old(l).scheduled@.len() <= final(l).scheduled@.len()
                    &&& final(l).scheduled@.take(old(l).scheduled@.len() as int) == old(l).scheduled@
                    &&& forall|i: int|
                        old(l).scheduled@.len() <= i < final(l).scheduled@.len() ==> (#[trigger] final(l).scheduled@[i]).param == TaskParam::<D>::Signal(signal)
                    &&& forall|i: int, j: int|
                        old(l).scheduled@.len() <= i < j < final(l).scheduled@.len() ==> (#[trigger] final(l).scheduled@[i]).recipient != (
                        #[trigger] final(l).scheduled@[j]).recipient
                }
            &&& (exists|i: int|
                old(l).scheduled@.len() <= i < final(l).scheduled@.len() && (#[trigger] final(l).scheduled@[i]).recipient == handle) <==> old(l).signal_recipients@.contains(
                (read->Number_0, handle),
            )
        },
        (*final(l) == Loop { scheduled: final(l).scheduled, ..*old(l) }),
{
    if read is Number && 1 <= read->Number_0 <= 31 && read->Number_0 != l.sigchld.num() {
        let signal = choose|signal: Signal|
            {
                &&& #[trigger] signal.num() == read->Number_0
                &&& final(l).scheduled@ == l.scheduled@ + signal_tasks(
                    l.signal_recipients@,
                    signal,
                )
            };
        lemma_told_about(*l, *final(l), signal, handle);
    }
}

/// After an event asks to track a child, the child is tracked by it, whatever else is tracked.
/// Everything else about children and events stays.
pub proof fn law_child_is_tracked<C, E, D, I>(
    l: &mut Loop<C, E, D, I>,
    handle: Handle,
    pid: i32,
    known: bool,
    p: i32,
    other: Handle,
)
    requires
        l.wf(),
        l.alive(handle),
        call_ensures(Loop::<C, E, D, I>::child_tracked, (&*l, p), known),
        call_ensures(Loop::<C, E, D, I>::child, (l, handle, pid), ()),
    ensures
        final(l).wf(),
        known <==> old(l).children@.dom().contains(p),
        final(l).children@.dom().contains(pid),
        final(l).children@[pid] == handle,
        final(l).alive(handle),
        final(l).holder(handle).children@.contains(pid),
        p != pid ==> (final(l).children@.dom().contains(p) <==> old(l).children@.dom().contains(
            p,
        )),
        p != pid && old(l).children@.dom().contains(p) ==> final(l).children@[p] == old(l).children@[p],
        p != pid ==> (final(l).holder(handle).children@.contains(p) <==> old(l).holder(
            handle,
        ).children@.contains(p)),
        (final(l).holder(handle) == EvHolder {
            children: final(l).holder(handle).children,
            ..old(l).holder(handle)
        }),
        other.id != handle.id ==> (final(l).alive(other) <==> old(l).alive(other)),
        other.id != handle.id && old(l).alive(other) ==> final(l).holder(other) == old(l).holder(
            other,
        ),
        (*final(l) == Loop {
            events: final(l).events,
            children: final(l).children,
            ..*old(l)
        }),
{
}

/// The end of a tracked child is put to the end of the queue, for the event that tracks it, with how
/// it ended. The child isn't tracked any more, the others are. What isn't the end of a tracked child
/// changes nothing.
pub proof fn law_child_end_is_queued<C, E, D, I>(
    l: &mut Loop<C, E, D, I>,
    status: ChildStatus,
    r: Result<bool, Error>,
    p: i32,
    other: Handle,
)
    requires
        l.wf(),
        call_ensures(Loop::<C, E, D, I>::children_gather, (l, status), r),
    ensures
        final(l).wf(),
        status is Again || status is StillAlive || status is NoChildren ==> r == Ok::<
            bool,
            Error,
        >(false),
        status is Exit || status is Other ==> r == Ok::<bool, Error>(true),
        status is Failed ==> r == Err::<bool, Error>(Error::Nix(status->Failed_0)),
        !(status is Exit) ==> *final(l) == *old(l),
        status is Exit && !old(l).children@.dom().contains(status->Exit_0) ==> {
            &&& final(l).scheduled@ == old(l).scheduled@
            &&& final(l).children@ == old(l).children@
            &&& final(l).events == old(l).events
        },
        status is Exit && old(l).children@.dom().contains(status->Exit_0) ==> ({
            let handle = old(l).children@[status->Exit_0];
            &&& final(l).scheduled@.len() == old(l).scheduled@.len() + 1
            &&& final(l).scheduled@.take(old(l).scheduled@.len() as int) == old(l).scheduled@
            &&& final(l).scheduled@.last().recipient == handle
            &&& final(l).scheduled@.last().param == TaskParam::<D>::Child(
                status->Exit_0,
                status->Exit_1,
            )
            &&& final(l).children@.dom().contains(p) <==> old(l).children@.dom().contains(p) && p
                != status->Exit_0
            &&& final(l).children@.dom().contains(p) ==> final(l).children@[p] == old(l).children@[p]
            &&& old(l).alive(handle)
            &&& final(l).alive(handle)
            &&& final(l).holder(handle).children@.contains(p) <==> old(l).holder(
                handle,
            ).children@.contains(p) && p != status->Exit_0
            &&& (final(l).holder(handle) == EvHolder {
                children: final(l).holder(handle).children,
                ..old(l).holder(handle)
            })
            &&& other.id != handle.id ==> (final(l).alive(other) <==> old(l).alive(other))
            &&& other.id != handle.id && old(l).alive(other) ==> final(l).holder(other) == old(l).holder(other)
        }),
        (*final(l) == Loop {
            events: final(l).events,
            children: final(l).children,
            scheduled: final(l).scheduled,
            ..*old(l)
        }),
{
    if status is Exit && l.children@.dom().contains(status->Exit_0) {
        assert(final(l).scheduled@.take(l.scheduled@.len() as int) =~= l.scheduled@);
    }
}

/// An event that wants to be called when the loop is idle is the last one to wait for it. If it
/// waited before, only its old place is left out.
pub proof fn law_waits_for_idle<C, E, D, I>(l: &mut Loop<C, E, D, I>, handle: Handle)
    requires
        l.wf(),
        call_ensures(Loop::<C, E, D, I>::idle, (l, handle), ()),
    ensures
        !old(l).want_idle@.contains(handle) ==> final(l).want_idle@ == old(l).want_idle@.push(
            handle,
        ),
        forall|i: int|
            0 <= i < old(l).want_idle@.len() && #[trigger] old(l).want_idle@[i] == handle ==> final(l).want_idle@ == (old(l).want_idle@.take(i) + old(l).want_idle@.skip(i + 1)).push(
                handle,
            ),
        (*final(l) == Loop { want_idle: final(l).want_idle, ..*old(l) }),
{
    reveal(idle_wf);
    let q = l.want_idle@;
    if !q.contains(handle) {
        lemma_without_none(q, handle);
    }
    assert forall|i: int| 0 <= i < q.len() && #[trigger] q[i] == handle implies final(l).want_idle@ == (q.take(i) + q.skip(i + 1)).push(handle) by {
        lemma_without_once(q, handle, i);
    }
}

/// A run goes on until it is stopped, and the one around it goes on then.
pub proof fn law_runs<C, E, D, I>(
    a: &mut Loop<C, E, D, I>,
    outer: bool,
    started: bool,
    b: &mut Loop<C, E, D, I>,
    stopped: bool,
    c: &mut Loop<C, E, D, I>,
    after: bool,
)
    requires
        call_ensures(Loop::<C, E, D, I>::run, (a,), outer),
        call_ensures(Loop::<C, E, D, I>::running, (&*final(a),), started),
        call_ensures(Loop::<C, E, D, I>::stop, (b,), ()),
        call_ensures(Loop::<C, E, D, I>::running, (&*final(b),), stopped),
        call_ensures(Loop::<C, E, D, I>::run_end, (c, outer), ()),
        call_ensures(Loop::<C, E, D, I>::running, (&*final(c),), after),
    ensures
        started,
        !stopped,
        after == old(a).active,
        (*final(a) == Loop { active: true, ..*old(a) }),
        (*final(b) == Loop { active: false, ..*old(b) }),
        (*final(c) == Loop { active: after, ..*old(c) }),
{
}

/// Running until the loop is empty is fine with the loop being empty, and with nothing else.
pub proof fn law_empty_is_fine(r: Result<(), Error>, out: Result<(), Error>)
    requires
        call_ensures(crate::loop_run::run_until_empty, (r,), out),
    ensures
        r == Err::<(), Error>(Error::Empty) ==> out is Ok,
        r != Err::<(), Error>(Error::Empty) ==> out == r,
{
}

/// What is written to the context is there afterwards, and nothing else changes.
pub proof fn law_context_is_kept<C, E, D, I>(l: &mut Loop<C, E, D, I>, context: &mut C)
    requires
        call_ensures(Loop::<C, E, D, I>::context, (l,), context),
    ensures
        *old(context) == old(l).context,
        (*final(l) == Loop { context: *final(context), ..*old(l) }),
{
}

/// An access to the context hands it over, keeps what is written to it and gives back its result.
pub proof fn law_accessed_context_is_kept<C, E, D, I, R, F: FnOnce(&mut C) -> Result<R, Error>>(
    l: &mut Loop<C, E, D, I>,
    f: F,
    r: Result<R, Error>,
)
    requires
        l.wf(),
        call_ensures(Loop::<C, E, D, I>::with_context::<R, F>, (l, f), r),
    ensures
        exists|context: &mut C|
            {
                &&& #[trigger] f.ensures((context,), r)
                &&& *context == old(l).context
                &&& final(l).context == *final(context)
            },
        (*final(l) == Loop { context: final(l).context, ..*old(l) }),
{
}

/// There's nothing in a new loop.
pub proof fn law_new_loop_is_empty<C, E, D, I>(
    context: C,
    now: i128,
    sigchld: Signal,
    l: Loop<C, E, D, I>,
    handle: Handle,
)
    requires
        call_ensures(Loop::<C, E, D, I>::with_sigchld, (context, now, sigchld), l)
            || call_ensures(Loop::<C, E, D, I>::new, (context, now), l),
    ensures
        l.wf(),
        !l.alive(handle),
        !l.active,
        l.context == context,
        l.now == now,
        l.generation == 0,
        !l.wrapped,
        l.events.data@.len() == 0,
        l.events.free@.len() == 0,
        l.scheduled@.len() == 0,
        l.timeouts@.len() == 0,
        l.timeouts_dead == 0,
        l.timeouts_fired == 0,
        l.timeouts_inserted == 0,
        l.timeout_generation == 0,
        !l.timeout_wrapped,
        l.ios.data@.len() == 0,
        l.ios.free@.len() == 0,
        forall|k: usize| !#[trigger] l.ios_released@.contains(k),
        l.want_idle@.len() == 0,
        l.pool_threads is None,
        l.background_generation == 0,
        forall|n: i32| !#[trigger] l.signal_mask@.contains(n),
        l.signal_recipients@.len() == 0,
        forall|pid: i32| !#[trigger] l.children@.dom().contains(pid),
        1 <= l.sigchld.num() <= 31 || l.sigchld == sigchld,
        call_ensures(Loop::<C, E, D, I>::with_sigchld, (context, now, sigchld), l) ==> l.sigchld
            == sigchld,
{
}

} // verus!
