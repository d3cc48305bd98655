//! What holds of the library as a whole.
use vstd::multiset::Multiset;
use vstd::prelude::*;

use crate::background::{all_answers, all_steps, steps_of, BackgroundJob, IterStep};
use crate::changes::Change;
use crate::error::Error;
use crate::event_loop::{
    alive_in, children_wf, fresh_wf, gens, idle_wf, ids_wf, io_keys, ios_wf, kids, lemma_filter_unique, live,
    other_recipient, signals_wf, timers_wf, EvHolder, Loop, Outcome,
};
use crate::handle::{Handle, IoId, TimeoutId};
use crate::idle::differs;
use crate::loop_run::Step;
use crate::loop_signal::{signal_tasks, wants};
use crate::loop_timers::{not_over, over, timeout_task};
use crate::message::{squashed, DeliveryMode, Message, RemoteMessage};
use crate::recycler::Recycler;
use crate::signal::{lemma_signal_num, ChildExit, Signal};
use crate::signal_dispatch::{connected, kept, Wakeup};
use crate::task::{for_one_of, pending, waiting, Task, TaskParam};
use crate::timers::TimeoutHolder;

verus! {

/// Releasing an index gives back what was stored there, and undoes the storing.
pub proof fn law_release_undoes_store<T>(
    a: Recycler<T>,
    b: Recycler<T>,
    c: Recycler<T>,
    item: T,
    idx: usize,
    out: T,
)
    requires
        Recycler::stored(a, b, item, idx),
        Recycler::released(b, c, idx, out),
    ensures
        out == item,
        c@ == a@,
{
    assert(c@ =~= a@);
}

/// The index released last is the first one to be reused, and the storage doesn't grow by that.
pub proof fn law_released_index_is_reused<T>(
    a: Recycler<T>,
    b: Recycler<T>,
    c: Recycler<T>,
    idx: usize,
    out: T,
    item: T,
    next: usize,
)
    requires
        Recycler::released(a, b, idx, out),
        Recycler::stored(b, c, item, next),
    ensures
        next == idx,
        c.data@.len() == a.data@.len(),
        c.free@ == a.free@,
{
    assert(c.free@ =~= a.free@);
}

/// An item stays at its index, with its content, when other items come and go.
pub proof fn law_items_stay<T>(
    a: Recycler<T>,
    b: Recycler<T>,
    idx: usize,
    item: T,
    mine: int,
)
    requires
        a@.dom().contains(mine),
        mine != idx,
        Recycler::stored(a, b, item, idx) || Recycler::released(a, b, idx, item),
    ensures
        b@.dom().contains(mine),
        b@[mine] == a@[mine],
{
}

/// Storing adds one item, releasing takes one away.
pub proof fn law_items_are_counted<T>(a: Recycler<T>, b: Recycler<T>, idx: usize, item: T)
    requires
        a.wf(),
        Recycler::stored(a, b, item, idx) || Recycler::released(a, b, idx, item),
    ensures
        Recycler::stored(a, b, item, idx) ==> b@.dom().len() == a@.dom().len() + 1,
        Recycler::released(a, b, idx, item) ==> b@.dom().len() == a@.dom().len() - 1,
{
    a.lemma_len();
    if Recycler::stored(a, b, item, idx) {
        assert(b@.dom() =~= a@.dom().insert(idx as int));
    }
    if Recycler::released(a, b, idx, item) {
        assert(b@.dom() =~= a@.dom().remove(idx as int));
    }
}

/// What was being called is back after its callback, with what the callback made out of it, and
/// nothing else is different.
pub proof fn law_callback_changes_only_the_event<Context, Ev, D, Io>(
    a: Loop<Context, Ev, D, Io>,
    b: Loop<Context, Ev, D, Io>,
    c: Loop<Context, Ev, D, Io>,
    handle: Handle,
    event: Ev,
    changed: Ev,
)
    requires
        Loop::taken(a, b, handle, event),
        Loop::returned(b, c, handle, changed),
    ensures
        Loop::event_changed(a, c, handle),
        c.holder(handle).event@ == Some(changed),
        c.alive(handle),
{
    assert(c.events@ =~= a.events@.insert(
        handle.id as int,
        EvHolder { event: c.holder(handle).event, ..a.holder(handle) },
    ));
}

/// Until the generations wrap around, all events alive are of a generation already used and any
/// event can be inserted.
pub proof fn law_generations<Context, Ev, D, Io>(l: Loop<Context, Ev, D, Io>, handle: Handle)
    requires
        l.wf(),
        !l.wrapped,
    ensures
        l.alive(handle) ==> handle.generation < l.generation,
        l.handle_fresh(),
{
    reveal(fresh_wf);
    let g = gens(l.events@);
    assert(l.alive(handle) ==> g.dom().contains(handle.id as int));
}

/// A newly inserted event gets a handle no other event has or had before. It doesn't resurrect any
/// dead one and doesn't kill any living one.
pub proof fn law_handles_are_unique<Context, Ev, D, Io>(
    pre: Loop<Context, Ev, D, Io>,
    post: Loop<Context, Ev, D, Io>,
    event: Ev,
    handle: Handle,
    other: Handle,
)
    requires
        pre.wf(),
        !pre.wrapped,
        Loop::inserted(pre, post, event, handle),
        other.generation < pre.generation,
    ensures
        other != handle,
        !pre.alive(handle),
        post.alive(handle),
        post.alive(other) <==> pre.alive(other),
        pre.alive(other) ==> post.holder(other) == pre.holder(other),
        !post.wrapped ==> handle.generation < post.generation,
{
}

/// Until the generations wrap around, an event that once died is dead for good. Whatever happens in
/// the loop, the handle stays of a generation already used and of no living event.
pub proof fn law_dead_stay_dead<Context, Ev, D, Io>(
    pre: Loop<Context, Ev, D, Io>,
    post: Loop<Context, Ev, D, Io>,
    change: Change<Ev, D, Io>,
    dead: Handle,
)
    requires
        Loop::happened(pre, post, change),
        !pre.wrapped,
        dead.generation < pre.generation,
        !pre.alive(dead),
    ensures
        !post.alive(dead),
        !post.wrapped ==> dead.generation < post.generation,
{
}

/// A handle that was of no living event once, of a generation already used, stays so all the time
/// until the generations wrap around.
pub proof fn law_dead_stay_dead_forever<Context, Ev, D, Io>(
    states: Seq<Loop<Context, Ev, D, Io>>,
    changes: Seq<Change<Ev, D, Io>>,
    i: int,
    j: int,
    dead: Handle,
)
    requires
        Loop::history(states, changes),
        0 <= i <= j < states.len(),
        forall|k: int| 0 <= k < j ==> !(#[trigger] states[k]).wrapped,
        dead.generation < states[i].generation,
        !states[i].alive(dead),
    ensures
        !states[j].alive(dead),
        !states[j].wrapped ==> dead.generation < states[j].generation,
    decreases j - i,
{
    if i < j {
        law_dead_stay_dead_forever(states, changes, i, j - 1, dead);
        assert(Loop::happened(states[j - 1], states[j - 1 + 1], changes[j - 1]));
        law_dead_stay_dead(states[j - 1], states[j], changes[j - 1], dead);
    }
}

/// The response of a callback decides: the event lives on if and only if it is `Ok(true)`. If it is
/// an error, that error gets out together with the event. The other events are as they were.
pub proof fn law_response_decides<Context, Ev, D, Io>(
    pre: Loop<Context, Ev, D, Io>,
    post: Loop<Context, Ev, D, Io>,
    handle: Handle,
    event: Ev,
    response: Result<bool, Error>,
    outcome: Outcome<Ev, Io>,
    other: Handle,
)
    requires
        pre.busy(handle),
        Loop::ended(pre, post, handle, event, response, outcome),
    ensures
        post.alive(handle) <==> response == Ok::<bool, Error>(true),
        !post.busy(handle),
        outcome is Failed <==> response is Err,
        response is Err ==> outcome->Failed_error == response->Err_0 && outcome->Failed_event
            == event,
        other != handle ==> (post.alive(other) <==> pre.alive(other)),
        other != handle && pre.alive(other) ==> post.holder(other) == pre.holder(other),
{
}

/// A killed event is dead, the others are as they were. Nothing in the loop waits for the dead one
/// any more and the ids of its IOs are held.
pub proof fn law_killed_is_forgotten<Context, Ev, D, Io>(
    pre: Loop<Context, Ev, D, Io>,
    post: Loop<Context, Ev, D, Io>,
    handle: Handle,
)
    requires
        pre.wf(),
        pre.alive(handle),
        Loop::killed(pre, post, handle),
    ensures
        !post.alive(handle),
        forall|other: Handle|
            other != handle ==> (#[trigger] post.alive(other) <==> pre.alive(other)),
        forall|other: Handle|
            other != handle && #[trigger] post.alive(other) ==> post.holder(other) == pre.holder(
                other,
            ),
        !post.want_idle@.contains(handle),
        forall|j: int|
            0 <= j < post.signal_recipients@.len() ==> (#[trigger] post.signal_recipients@[j]).1
                != handle,
        forall|pid: i32| #[trigger]
            post.children@.dom().contains(pid) ==> post.children@[pid] != handle,
        forall|k: usize| #[trigger]
            pre.holder(handle).ios@.dom().contains(k) ==> post.ios_released@.contains(k),
{
    lemma_filter_unique(pre.want_idle@, differs(handle));
    lemma_filter_unique(pre.signal_recipients@, other_recipient(handle));
    assert forall|j: int| 0 <= j < post.signal_recipients@.len() implies (
    #[trigger] post.signal_recipients@[j]).1 != handle by {
        assert(other_recipient(handle)(
            pre.signal_recipients@.filter(other_recipient(handle))[j],
        ));
    }
    assert forall|pid: i32| #[trigger] post.children@.dom().contains(pid) implies post.children@[pid]
        != handle by {
        reveal(children_wf);
        assert(pre.children@.dom().contains(pid));
        assert(kids(pre.events@)[pre.children@[pid].id as int].contains(pid));
    }
}

/// The loop counts its events: inserting one adds one, killing one takes one away and nothing else
/// about a callback changes the number.
pub proof fn law_events_are_counted<Context, Ev, D, Io>(
    pre: Loop<Context, Ev, D, Io>,
    post: Loop<Context, Ev, D, Io>,
    handle: Handle,
    event: Ev,
)
    requires
        pre.wf(),
    ensures
        Loop::inserted(pre, post, event, handle) ==> post.events@.dom().len()
            == pre.events@.dom().len() + 1,
        Loop::killed(pre, post, handle) && pre.alive(handle) ==> post.events@.dom().len()
            == pre.events@.dom().len() - 1,
        Loop::taken(pre, post, handle, event) || Loop::returned(pre, post, handle, event)
            ==> post.events@.dom().len() == pre.events@.dom().len(),
{
    pre.events.lemma_len();
    if Loop::inserted(pre, post, event, handle) {
        assert(post.events@.dom() =~= pre.events@.dom().insert(handle.id as int));
    }
    if Loop::killed(pre, post, handle) && pre.alive(handle) {
        assert(post.events@.dom() =~= pre.events@.dom().remove(handle.id as int));
    }
    if Loop::taken(pre, post, handle, event) || Loop::returned(pre, post, handle, event) {
        assert(post.events@.dom() =~= pre.events@.dom());
    }
}

/// Only events alive get called, and each of them only if it isn't in the middle of a callback.
pub proof fn law_only_idle_living_events_are_called<Context, Ev, D, Io>(
    pre: Loop<Context, Ev, D, Io>,
    post: Loop<Context, Ev, D, Io>,
    r: Step<Ev, D>,
)
    requires
        Loop::ran(pre, post, r),
        r is Call,
    ensures
        pre.alive(r->handle),
        !pre.busy(r->handle),
        post.busy(r->handle),
        pre.holder(r->handle).event@ == Some(r->event@),
{
}

/// An event in the middle of its callback can't go away and can't be called again, whatever its
/// callback does with the loop: it stays there until it is returned, or killed as the end of its
/// callback.
pub proof fn law_busy_event_stays<Context, Ev, D, Io>(
    pre: Loop<Context, Ev, D, Io>,
    post: Loop<Context, Ev, D, Io>,
    change: Change<Ev, D, Io>,
    handle: Handle,
)
    requires
        Loop::happened(pre, post, change),
        pre.busy(handle),
        !(change matches Change::Returned { handle: h, event } && h == handle),
        !(change matches Change::Killed { handle: h } && h == handle),
    ensures
        post.busy(handle),
        !(change matches Change::Taken { handle: h, event } && h == handle),
        !(change matches Change::Ran(Step::Call { handle: h, event, param }) && h == handle),
{
}

/// What an event registers for and what gets scheduled has no influence on whether events are alive
/// or called. Only inserting, callbacks and killing do.
pub proof fn law_registering_keeps_events<Context, Ev, D, Io>(
    pre: Loop<Context, Ev, D, Io>,
    post: Loop<Context, Ev, D, Io>,
    change: Change<Ev, D, Io>,
    handle: Handle,
)
    requires
        Loop::happened(pre, post, change),
        !(change is Inserted),
        !(change is Taken),
        !(change is Returned),
        !(change is Killed),
        !(change is Ran),
    ensures
        post.alive(handle) <==> pre.alive(handle),
        post.busy(handle) <==> pre.busy(handle),
        pre.alive(handle) ==> post.holder(handle).event == pre.holder(handle).event,
{
}

/// The operations are made of changes: the end of a callback returns or kills the event, a message
/// is something scheduled.
pub proof fn law_operations_are_changes<Context, Ev, D, Io>(
    pre: Loop<Context, Ev, D, Io>,
    post: Loop<Context, Ev, D, Io>,
    handle: Handle,
    event: Ev,
    response: Result<bool, Error>,
    outcome: Outcome<Ev, Io>,
    message: Message<D>,
)
    ensures
        Loop::ended(pre, post, handle, event, response, outcome) && pre.busy(handle) ==> (
        if response == Ok::<bool, Error>(true) {
            Loop::happened(pre, post, Change::Returned { handle, event })
        } else {
            Loop::happened(pre, post, Change::Killed { handle })
        }),
        Loop::scheduled_message(pre, post, handle, message) ==> Loop::happened(
            pre,
            post,
            Change::Scheduled(Task { recipient: handle, param: TaskParam::Message(message) }),
        ),
{
}

/// The queue is first in, first out: whatever happens, what is in the queue stays at its front in the
/// same order, and anything new is behind it. Only taking of tasks takes some away, from the front.
pub proof fn law_first_in_first_out<Context, Ev, D, Io>(
    pre: Loop<Context, Ev, D, Io>,
    post: Loop<Context, Ev, D, Io>,
    change: Change<Ev, D, Io>,
)
    requires
        Loop::happened(pre, post, change),
    ensures
        !(change is Ran) ==> pre.scheduled@.len() <= post.scheduled@.len() && post.scheduled@.take(
            pre.scheduled@.len() as int,
        ) == pre.scheduled@,
        change is Ran ==> post.scheduled@.len() <= pre.scheduled@.len() && post.scheduled@
            == pre.scheduled@.skip(pre.scheduled@.len() - post.scheduled@.len()),
{
    if let Change::Ran(step) = change {
        law_queue_keeps_order(pre, post, step);
    } else {
        assert(post.scheduled@.take(pre.scheduled@.len() as int) =~= pre.scheduled@);
    }
}

/// Nothing overtakes what is in the queue: at any later time, what is left of it is still at the
/// front and in the same order. What came first is gone first.
pub proof fn law_nothing_overtakes<Context, Ev, D, Io>(
    states: Seq<Loop<Context, Ev, D, Io>>,
    changes: Seq<Change<Ev, D, Io>>,
    i: int,
    j: int,
) -> (gone: int)
    requires
        Loop::history(states, changes),
        0 <= i <= j < states.len(),
    ensures
        0 <= gone <= states[i].scheduled@.len(),
        states[i].scheduled@.len() - gone <= states[j].scheduled@.len(),
        states[j].scheduled@.take(states[i].scheduled@.len() - gone)
            == states[i].scheduled@.skip(gone),
    decreases j - i,
{
    let all = states[i].scheduled@;
    if i == j {
        assert(all.take(all.len() as int) =~= all.skip(0));
        0
    } else {
        let before = law_nothing_overtakes(states, changes, i, j - 1);
        let pre = states[j - 1];
        let post = states[j];
        assert(Loop::happened(states[j - 1], states[j - 1 + 1], changes[j - 1]));
        law_first_in_first_out(pre, post, changes[j - 1]);
        let left = all.len() - before;
        if changes[j - 1] is Ran {
            let taken = pre.scheduled@.len() - post.scheduled@.len();
            let gone = if taken <= left {
                before + taken
            } else {
                all.len() as int
            };
            assert forall|n: int| 0 <= n < all.len() - gone implies #[trigger] post.scheduled@[n]
                == all[gone + n] by {
                assert(post.scheduled@[n] == pre.scheduled@[taken + n]);
                assert(pre.scheduled@.take(left)[taken + n] == all.skip(before)[taken + n]);
            }
            assert(post.scheduled@.take(all.len() - gone) =~= all.skip(gone));
            gone
        } else {
            assert(post.scheduled@.take(left) =~= pre.scheduled@.take(left)) by {
                assert forall|n: int| 0 <= n < left implies post.scheduled@[n]
                    == pre.scheduled@[n] by {
                    assert(post.scheduled@.take(pre.scheduled@.len() as int)[n]
                        == pre.scheduled@[n]);
                }
            }
            before
        }
    }
}

/// A registration for a signal stays until its own event is killed, and appears only by registering.
pub proof fn law_signal_registration_stays<Context, Ev, D, Io>(
    pre: Loop<Context, Ev, D, Io>,
    post: Loop<Context, Ev, D, Io>,
    change: Change<Ev, D, Io>,
    number: i32,
    handle: Handle,
)
    requires
        Loop::happened(pre, post, change),
    ensures
        pre.signal_recipients@.contains((number, handle)) && !(change matches Change::Killed {
            handle: h,
        } && h == handle) ==> post.signal_recipients@.contains((number, handle)),
        post.signal_recipients@.contains((number, handle)) && !(change is SignalAdded)
            ==> pre.signal_recipients@.contains((number, handle)),
        change matches Change::SignalAdded { handle: h, signal } ==> (
        post.signal_recipients@.contains((number, handle)) <==> pre.signal_recipients@.contains(
            (number, handle),
        ) || (h == handle && signal.num() == number)),
{
    let p = (number, handle);
    let all = pre.signal_recipients@;
    match change {
        Change::Killed { handle: h } => {
            let f = other_recipient(h);
            lemma_filter_unique(all, f);
            if all.contains(p) && handle != h {
                let j = choose|j: int| 0 <= j < all.len() && all[j] == p;
                assert(f(all[j]));
                lemma_filter_keeps(all, f, j);
            }
            if post.signal_recipients@.contains(p) {
                let j = choose|j: int| 0 <= j < all.filter(f).len() && all.filter(f)[j] == p;
                assert(all.contains(all.filter(f)[j]));
            }
        },
        Change::SignalAdded { handle: h, signal } => {
            let after = post.signal_recipients@;
            if !all.contains((signal.num(), h)) {
                assert(after[all.len() as int] == (signal.num(), h));
                if all.contains(p) {
                    let j = choose|j: int| 0 <= j < all.len() && all[j] == p;
                    assert(after[j] == p);
                }
                if after.contains(p) && p != (signal.num(), h) {
                    let j = choose|j: int| 0 <= j < after.len() && after[j] == p;
                    assert(all[j] == p);
                }
            }
        },
        _ => {},
    }
}

/// An event that waits for the loop to be idle keeps waiting until it is killed or it is queued to be
/// called. The others that wait keep their order, and only asking makes an event wait.
pub proof fn law_idle_keeps_waiting<Context, Ev, D, Io>(
    pre: Loop<Context, Ev, D, Io>,
    post: Loop<Context, Ev, D, Io>,
    change: Change<Ev, D, Io>,
    handle: Handle,
)
    requires
        pre.wf(),
        Loop::happened(pre, post, change),
    ensures
        pre.want_idle@.contains(handle) && !(change matches Change::Killed { handle: h } && h
            == handle) ==> post.want_idle@.contains(handle) || post.scheduled@.contains(
            Task { recipient: handle, param: TaskParam::<D>::Idle },
        ),
        post.want_idle@.contains(handle) ==> pre.want_idle@.contains(handle) || (change matches Change::IdleAdded {
            handle: h,
        } && h == handle),
        change is Gathered ==> post.want_idle@ == pre.want_idle@ || (pre.want_idle@.len() > 0
            && post.want_idle@ == pre.want_idle@.skip(1)),
        !(change is Gathered) && !(change is Killed) && !(change is IdleAdded) ==> post.want_idle@
            == pre.want_idle@,
        change matches Change::IdleAdded { handle: h } ==> post.want_idle@.last() == h
            && post.want_idle@.len() > 0,
{
    reveal(idle_wf);
    let q = pre.want_idle@;
    match change {
        Change::Killed { handle: h } => {
            crate::part_laws::lemma_without_contains(q, h, handle);
        },
        Change::IdleAdded { handle: h } => {
            crate::part_laws::lemma_without_contains(q, h, handle);
            let rest = crate::idle::without(q, h);
            if rest.contains(handle) {
                let j = choose|j: int| 0 <= j < rest.len() && rest[j] == handle;
                assert(post.want_idle@[j] == handle);
            }
            assert(post.want_idle@[rest.len() as int] == h);
            if post.want_idle@.contains(handle) && handle != h {
                let j = choose|j: int|
                    0 <= j < post.want_idle@.len() && post.want_idle@[j] == handle;
                assert(rest[j] == handle);
            }
        },
        Change::Gathered(fired) => {
            if post.want_idle@ != q {
                assert(q.drop_first() =~= q.skip(1));
                if q.contains(handle) {
                    let j = choose|j: int| 0 <= j < q.len() && q[j] == handle;
                    if j == 0 {
                        assert(post.scheduled@[0] == (Task {
                            recipient: handle,
                            param: TaskParam::<D>::Idle,
                        }));
                    } else {
                        assert(post.want_idle@[j - 1] == handle);
                    }
                }
                if post.want_idle@.contains(handle) {
                    let j = choose|j: int|
                        0 <= j < post.want_idle@.len() && post.want_idle@[j] == handle;
                    assert(q[j + 1] == handle);
                }
            }
        },
        _ => {},
    }
}

/// What an event has stays until it gives it up or is killed: its life, the types it expects, its
/// children and its IOs.
pub proof fn law_what_events_have_stays<Context, Ev, D, Io>(
    pre: Loop<Context, Ev, D, Io>,
    post: Loop<Context, Ev, D, Io>,
    change: Change<Ev, D, Io>,
    handle: Handle,
    tp: std::any::TypeId,
    pid: i32,
    k: usize,
)
    requires
        pre.wf(),
        Loop::happened(pre, post, change),
        pre.alive(handle),
        !(change matches Change::Killed { handle: h } && h == handle),
    ensures
        post.alive(handle),
        pre.holder(handle).expected_messages@.contains(tp) ==> post.holder(
            handle,
        ).expected_messages@.contains(tp),
        pre.holder(handle).children@.contains(pid) && !(change matches Change::ChildExited {
            pid: p,
            exit,
        } && p == pid) ==> post.holder(handle).children@.contains(pid),
        pre.holder(handle).ios@.dom().contains(k) && !(change matches Change::IoRemoved {
            handle: h,
            io_id,
        } && h == handle && io_id.index() as usize == k) ==> post.holder(handle).ios@.dom().contains(k),
        pre.holder(handle).ios@.dom().contains(k) && post.holder(handle).ios@.dom().contains(k)
            && !(change matches Change::IoChanged { handle: h, io, io_id } && h == handle
            && io_id.index() as usize == k) ==> post.holder(handle).ios@[k]
            == pre.holder(handle).ios@[k],
        !(change is Ran) && !(change is TimeoutAdded) ==> post.holder(handle).timeouts
            == pre.holder(handle).timeouts,
        !(change is Taken) && !(change is Returned) && !(change is Ran) ==> post.holder(
            handle,
        ).event == pre.holder(handle).event,
{
    if let Change::Expected { handle: h, tp: added } = change {
        let before = pre.holder(h).expected_messages@;
        let after = post.holder(h).expected_messages@;
        if before.contains(tp) && !before.contains(added) {
            let i = choose|i: int| 0 <= i < before.len() && before[i] == tp;
            assert(after[i] == tp);
        }
    }
    if let Change::IoAdded { handle: h, io, io_id } = change {
        reveal(ios_wf);
        let keys = io_keys(pre.events@);
        assert(alive_in(gens(pre.events@), h));
        assert(keys[h.id as int] == pre.holder(h).ios@.dom());
        if pre.holder(h).ios@.dom().contains(k) {
            assert(keys[h.id as int].contains(k));
        }
    }
}

/// Whatever happens to events and to the queue has no influence on the rest of the loop: its context,
/// time, signals it handles, threads and whether it runs.
pub proof fn law_the_rest_stays<Context, Ev, D, Io>(
    pre: Loop<Context, Ev, D, Io>,
    post: Loop<Context, Ev, D, Io>,
    change: Change<Ev, D, Io>,
)
    requires
        Loop::happened(pre, post, change),
        !(change is Aside),
    ensures
        post.context == pre.context,
        post.now == pre.now,
        post.active == pre.active,
        post.signal_mask == pre.signal_mask,
        post.sigchld == pre.sigchld,
        post.pool_threads == pre.pool_threads,
        post.background_generation == pre.background_generation,
{
}

/// The queue is worked off from the front. What is behind the task taken stays in order.
pub proof fn law_queue_keeps_order<Context, Ev, D, Io>(
    pre: Loop<Context, Ev, D, Io>,
    post: Loop<Context, Ev, D, Io>,
    r: Step<Ev, D>,
)
    requires
        Loop::ran(pre, post, r),
    ensures
        post.scheduled@.len() <= pre.scheduled@.len(),
        post.scheduled@ == pre.scheduled@.skip(
            pre.scheduled@.len() - post.scheduled@.len(),
        ),
        !(r is Gather) ==> post.scheduled@.len() < pre.scheduled@.len(),
{
    if r is Gather {
        assert(post.scheduled@ =~= pre.scheduled@.skip(pre.scheduled@.len() as int));
    } else {
        let k = choose|k: int|
            {
                &&& 0 <= k < pre.scheduled@.len()
                &&& pre.alive(pre.scheduled@[k].recipient)
                &&& forall|i: int|
                    0 <= i < k ==> !pre.alive((#[trigger] pre.scheduled@[i]).recipient)
                &&& #[trigger] Loop::stepped(pre, post, k, r)
            };
        assert(post.scheduled@ == pre.scheduled@.skip(k + 1));
    }
}

/// Once it is its turn, the event receives exactly the message that was sent to it.
pub proof fn law_message_is_delivered<Context, Ev, D, Io>(
    pre: Loop<Context, Ev, D, Io>,
    mid: Loop<Context, Ev, D, Io>,
    post: Loop<Context, Ev, D, Io>,
    handle: Handle,
    message: Message<D>,
    r: Step<Ev, D>,
)
    requires
        Loop::scheduled_message(pre, mid, handle, message),
        pre.alive(handle),
        !pre.busy(handle),
        forall|i: int|
            0 <= i < pre.scheduled@.len() ==> !pre.alive(
                (#[trigger] pre.scheduled@[i]).recipient,
            ),
        Loop::ran(mid, post, r),
    ensures
        r is Call,
        r->handle == handle,
        r->param == TaskParam::Message(message),
        pre.holder(handle).event@ == Some(r->event@),
{
    let last = pre.scheduled@.len() as int;
    assert(mid.scheduled@[last].recipient == handle);
    assert(mid.alive(handle));
    if r is Gather {
        assert(!mid.alive(mid.scheduled@[last].recipient));
    } else {
        let k = choose|k: int|
            {
                &&& 0 <= k < mid.scheduled@.len()
                &&& mid.alive(mid.scheduled@[k].recipient)
                &&& forall|i: int|
                    0 <= i < k ==> !mid.alive((#[trigger] mid.scheduled@[i]).recipient)
                &&& #[trigger] Loop::stepped(mid, post, k, r)
            };
        if k < last {
            assert(mid.scheduled@[k] == pre.scheduled@[k]);
        }
    }
}

/// What waits in the queue for an event already dead never gets to anyone: it is dropped once it is
/// its turn.
pub proof fn law_tasks_of_the_dead_are_lost<Context, Ev, D, Io>(
    pre: Loop<Context, Ev, D, Io>,
    post: Loop<Context, Ev, D, Io>,
    r: Step<Ev, D>,
    i: int,
)
    requires
        0 <= i < pre.scheduled@.len(),
        !pre.alive(pre.scheduled@[i].recipient),
        forall|j: int|
            0 <= j < i ==> !pre.alive((#[trigger] pre.scheduled@[j]).recipient),
        Loop::ran(pre, post, r),
    ensures
        r is Gather || post.scheduled@.len() < pre.scheduled@.len() - i - 1,
        r is Call ==> pre.alive(r->handle),
{
}

/// After an event declares it expects a type of messages, these can be sent to it. What other types
/// are accepted, by whatever event, doesn't change.
pub proof fn law_expected_is_accepted<Context, Ev, D, Io>(
    pre: Loop<Context, Ev, D, Io>,
    post: Loop<Context, Ev, D, Io>,
    handle: Handle,
    tp: std::any::TypeId,
    other: Handle,
    other_tp: std::any::TypeId,
)
    requires
        pre.alive(handle),
        Loop::expected(pre, post, handle, tp),
    ensures
        post.type_check(handle, tp) == Ok::<(), Error>(()),
        other != handle || other_tp != tp ==> (post.accepts(other, other_tp) <==> pre.accepts(
            other,
            other_tp,
        )),
{
    let before = pre.holder(handle).expected_messages@;
    let after = post.holder(handle).expected_messages@;
    if !pre.accepts(handle, tp) {
        assert(after[before.len() as int] == tp);
        assert forall|x: std::any::TypeId| x != tp implies (after.contains(x) <==> before.contains(
            x,
        )) by {
            if before.contains(x) {
                let i = choose|i: int| 0 <= i < before.len() && before[i] == x;
                assert(after[i] == x);
            }
            if after.contains(x) {
                let i = choose|i: int| 0 <= i < after.len() && after[i] == x;
                assert(before[i] == x);
            }
        }
    }
}

/// The result of a background job gets to the event that asked for it even if it doesn't expect
/// that type of messages, and extracting it gives back the very same result.
pub proof fn law_background_result_arrives<Context, Ev, R, Io>(
    l: Loop<Context, Ev, Result<R, Error>, Io>,
    job: BackgroundJob,
    value: Result<R, Error>,
    real_type: std::any::TypeId,
)
    ensures
        l.passes(job.message(value, real_type)),
        job.message(value, real_type).recipient == job.requestor,
        job.message(value, real_type).message().mode == DeliveryMode::Background(job.id),
        squashed(Some(job.message(value, real_type).message().data)) == value,
{
}

/// A job with multiple results sends one message for each of them, in order, and terminates the
/// sequence by [Error::IterEnd]. All of it is for the event that asked for the job.
pub proof fn law_results_come_in_order<R>(
    job: BackgroundJob,
    results: Seq<R>,
    real_type: std::any::TypeId,
)
    ensures
        all_steps(results).len() == results.len() + 1,
        forall|i: int|
            0 <= i < results.len() ==> job.message(
                (#[trigger] all_steps(results)[i]).value(),
                real_type,
            ).data == Ok::<R, Error>(results[i]),
        job.message(all_steps(results).last().value(), real_type).data == Err::<R, Error>(
            Error::IterEnd,
        ),
        forall|i: int|
            0 <= i <= results.len() ==> job.message(
                (#[trigger] all_steps(results)[i]).value(),
                real_type,
            ).recipient == job.requestor,
{
}

/// A job takes exactly the steps for its results, whatever the iterator would answer after its end:
/// the end comes once and is the last.
pub proof fn law_job_ends_once<R>(results: Seq<R>, rest: Seq<Result<Option<R>, Error>>)
    ensures
        steps_of(all_answers(results) + rest) == all_steps(results),
    decreases results.len(),
{
    let answers = all_answers(results) + rest;
    if results.len() == 0 {
        assert(answers.first() == Ok::<Option<R>, Error>(None));
        assert(all_steps(results) =~= seq![IterStep::<R>::End]);
    } else {
        law_job_ends_once(results.drop_first(), rest);
        assert(answers.drop_first() =~= all_answers(results.drop_first()) + rest);
        assert(answers.first() == Ok::<Option<R>, Error>(Some(results.first())));
        assert(all_steps(results) =~= seq![IterStep::Item(results.first())] + all_steps(
            results.drop_first(),
        ));
    }
}

/// If there is no iterator over the results, the failure is all a job tells about.
pub proof fn law_failed_job_only_fails<R>(error: Error, rest: Seq<Result<Option<R>, Error>>)
    ensures
        steps_of(seq![Err::<Option<R>, Error>(error)] + rest) == seq![IterStep::<R>::Failed(error)],
{
    assert((seq![Err::<Option<R>, Error>(error)] + rest).first() == Err::<Option<R>, Error>(error));
}

/// A message from a channel passes if and only if the event accepts that type.
pub proof fn law_remote_message_is_checked<Context, Ev, D, Io>(
    l: Loop<Context, Ev, D, Io>,
    message: RemoteMessage<D>,
)
    requires
        message.mode is Remote,
    ensures
        l.passes(message) <==> l.type_check(message.recipient, message.real_type) == Ok::<
            (),
            Error,
        >(()),
{
}

/// The bookkeeping of timeouts adds up.
///
/// What was inserted either fired, or died with its event, or waits for a living event. Every
/// living event knows exactly how many of its timeouts wait.
pub proof fn law_timeouts_add_up<Context, Ev, D, Io>(l: Loop<Context, Ev, D, Io>, handle: Handle)
    requires
        l.wf(),
    ensures
        l.timeouts_inserted == l.timeouts_fired + l.timeouts_dead + pending(
            l.timeouts@,
            l.scheduled@,
            live(gens(l.events@)),
        ),
        l.alive(handle) ==> l.holder(handle).timeouts == pending(
            l.timeouts@,
            l.scheduled@,
            set![handle],
        ),
{
    reveal(timers_wf);
    assert(l.alive(handle) ==> alive_in(gens(l.events@), handle));
}

/// Every timeout of a living event whose time has come is scheduled exactly once by a gathering and
/// not stored any more. One whose time has not come stays stored and isn't scheduled.
pub proof fn law_timeouts_fire_once<Context, Ev, D, Io>(
    pre: Loop<Context, Ev, D, Io>,
    post: Loop<Context, Ev, D, Io>,
    fired: Seq<TimeoutHolder>,
    t: TimeoutHolder,
)
    requires
        Loop::gathered(pre, post, fired),
        pre.alive(t.recipient),
    ensures
        t.when <= pre.now ==> fired.to_multiset().count(t) == pre.timeouts@.count(t)
            && post.timeouts@.count(t) == 0,
        t.when > pre.now ==> fired.to_multiset().count(t) == 0 && post.timeouts@.count(t)
            == pre.timeouts@.count(t),
{
    broadcast use vstd::multiset::group_multiset_axioms;

    let g = gens(pre.events@);
    assert(alive_in(g, t.recipient));
    assert(for_one_of(live(g))(t));
    assert(pre.pruned().count(t) == pre.timeouts@.count(t));
    assert(over(pre.now)(t) == (t.when <= pre.now));
    assert(not_over(pre.now)(t) == (t.when > pre.now));
}

/// Once the instant of a timeout passes, the event is going to be told, with the id it got when it
/// asked for the timeout.
pub proof fn law_timeout_is_delivered<Context, Ev, D, Io>(
    a: Loop<Context, Ev, D, Io>,
    b: Loop<Context, Ev, D, Io>,
    c: Loop<Context, Ev, D, Io>,
    handle: Handle,
    when: i128,
    id: TimeoutId,
    fired: Seq<TimeoutHolder>,
    now: i128,
)
    requires
        a.alive(handle),
        Loop::timeout_added(a, b, handle, when, id),
        now >= when,
        Loop::gathered((Loop { now, ..b }), c, fired),
    ensures
        c.scheduled@.contains(Task { recipient: handle, param: TaskParam::Timeout(id) }),
{
    broadcast use vstd::multiset::group_multiset_axioms;
    broadcast use vstd::seq_lib::group_to_multiset_ensures;

    let l = Loop { now, ..b };
    let t = TimeoutHolder { id, recipient: handle, when };
    law_timeouts_fire_once(l, c, fired, t);
    assert(l.timeouts@.count(t) > 0);
    assert(fired.contains(t));
    let i = choose|i: int| 0 <= i < fired.len() && fired[i] == t;
    let tasks = fired.map_values(timeout_task::<D>());
    assert(tasks[i] == timeout_task::<D>()(t));
    assert(c.scheduled@[l.scheduled@.len() + i] == tasks[i]);
}

/// Until the ids wrap around, no two timeouts ever get the same id.
pub proof fn law_timeout_ids_differ<Context, Ev, D, Io>(
    states: Seq<Loop<Context, Ev, D, Io>>,
    changes: Seq<Change<Ev, D, Io>>,
    i: int,
    j: int,
)
    requires
        Loop::history(states, changes),
        0 <= i < j < changes.len(),
        changes[i] is TimeoutAdded,
        changes[j] is TimeoutAdded,
        !states[j].timeout_wrapped,
    ensures
        changes[i]->TimeoutAdded_id != changes[j]->TimeoutAdded_id,
        changes[i]->TimeoutAdded_id.0 < changes[j]->TimeoutAdded_id.0,
{
    let id = changes[i]->TimeoutAdded_id;
    assert(Loop::happened(states[i], states[i + 1], changes[i]));
    assert(Loop::happened(states[j], states[j + 1], changes[j]));
    lemma_ids_forward(states, changes, i + 1, j, id);
}

/// Over a part of a history, the ids only grow and an id already used doesn't start to wait again.
proof fn lemma_ids_forward<Context, Ev, D, Io>(
    states: Seq<Loop<Context, Ev, D, Io>>,
    changes: Seq<Change<Ev, D, Io>>,
    i: int,
    j: int,
    id: TimeoutId,
)
    requires
        Loop::history(states, changes),
        0 <= i <= j < states.len(),
        !states[j].timeout_wrapped,
    ensures
        !states[i].timeout_wrapped,
        states[i].timeout_generation <= states[j].timeout_generation,
        id.0 < states[i].timeout_generation ==> waiting(
            states[j].timeouts@,
            states[j].scheduled@,
            id,
        ) <= waiting(states[i].timeouts@, states[i].scheduled@, id),
    decreases j - i,
{
    if i < j {
        assert(Loop::happened(states[j - 1], states[j - 1 + 1], changes[j - 1]));
        Loop::lemma_ids_used(states[j - 1], states[j], changes[j - 1], id);
        lemma_ids_forward(states, changes, i, j - 1, id);
    }
}

/// A timeout is single-shot: until the ids wrap around, no callback is told about the same one
/// twice.
pub proof fn law_timeout_is_told_once<Context, Ev, D, Io>(
    states: Seq<Loop<Context, Ev, D, Io>>,
    changes: Seq<Change<Ev, D, Io>>,
    i: int,
    j: int,
    first: Handle,
    second: Handle,
    id: TimeoutId,
)
    requires
        Loop::history(states, changes),
        0 <= i < changes.len(),
        0 <= j < changes.len(),
        changes[i].tells(first, id),
        changes[j].tells(second, id),
        !states.last().timeout_wrapped,
    ensures
        i == j,
        first == second,
{
    if i < j {
        lemma_not_told_later(states, changes, i, j, first, second, id);
    } else if j < i {
        lemma_not_told_later(states, changes, j, i, second, first, id);
    }
}

/// Nobody is told about a timeout someone was already told about.
proof fn lemma_not_told_later<Context, Ev, D, Io>(
    states: Seq<Loop<Context, Ev, D, Io>>,
    changes: Seq<Change<Ev, D, Io>>,
    i: int,
    j: int,
    first: Handle,
    second: Handle,
    id: TimeoutId,
)
    requires
        Loop::history(states, changes),
        0 <= i < j < changes.len(),
        changes[i].tells(first, id),
        !states.last().timeout_wrapped,
    ensures
        !changes[j].tells(second, id),
{
    assert(Loop::happened(states[i], states[i + 1], changes[i]));
    assert(Loop::happened(states[j], states[j + 1], changes[j]));
    lemma_ids_forward(states, changes, j + 1, states.len() - 1, id);
    Loop::lemma_ids_used(states[j], states[j + 1], changes[j], id);
    lemma_ids_forward(states, changes, i + 1, j, id);
    Loop::lemma_ids_used(states[i], states[i + 1], changes[i], id);
    assert(states[i].wf());
    reveal(ids_wf);
    assert(waiting(states[i].timeouts@, states[i].scheduled@, id) <= 1);
}

/// The event asked for the timeout before.
pub open spec fn asked<Ev, D, Io>(
    changes: Seq<Change<Ev, D, Io>>,
    n: int,
    t: TimeoutHolder,
) -> bool {
    exists|i: int|
        0 <= i < n && #[trigger] changes[i] == (Change::<Ev, D, Io>::TimeoutAdded {
            handle: t.recipient,
            when: t.when,
            id: t.id,
        })
}

/// The event asked for the timeout and then its time came.
pub open spec fn ripened<Context, Ev, D, Io>(
    states: Seq<Loop<Context, Ev, D, Io>>,
    changes: Seq<Change<Ev, D, Io>>,
    n: int,
    handle: Handle,
    id: TimeoutId,
) -> bool {
    exists|k: int, when: i128|
        {
            &&& 0 <= k < n
            &&& #[trigger] asked(changes, k, TimeoutHolder { id, recipient: handle, when })
            &&& when <= states[k].now
        }
}

/// A timeout never comes early and never to someone else: it is told to the event that asked for it,
/// and the instant it asked for came in between.
pub proof fn law_timeout_is_not_early<Context, Ev, D, Io>(
    states: Seq<Loop<Context, Ev, D, Io>>,
    changes: Seq<Change<Ev, D, Io>>,
    i: int,
    handle: Handle,
    id: TimeoutId,
)
    requires
        Loop::history(states, changes),
        states[0].timeouts@ == Multiset::<TimeoutHolder>::empty(),
        states[0].scheduled@ == Seq::<Task<D>>::empty(),
        0 <= i < changes.len(),
        changes[i].tells(handle, id),
    ensures
        ripened(states, changes, i, handle, id),
        states[i].alive(handle),
        !states[i].busy(handle),
{
    let pre = states[i];
    let post = states[i + 1];
    assert(Loop::happened(pre, post, changes[i]));
    let step = changes[i]->Ran_0;
    let k = choose|k: int|
        {
            &&& 0 <= k < pre.scheduled@.len()
            &&& pre.alive(pre.scheduled@[k].recipient)
            &&& forall|i: int| 0 <= i < k ==> !pre.alive((#[trigger] pre.scheduled@[i]).recipient)
            &&& #[trigger] Loop::stepped(pre, post, k, step)
        };
    lemma_timeout_origins(states, changes, i);
    assert(pre.scheduled@[k] == (Task { recipient: handle, param: TaskParam::<D>::Timeout(id) }));
}

/// All timeouts that wait were asked for, and those in the queue came to their time.
proof fn lemma_timeout_origins<Context, Ev, D, Io>(
    states: Seq<Loop<Context, Ev, D, Io>>,
    changes: Seq<Change<Ev, D, Io>>,
    n: int,
)
    requires
        Loop::history(states, changes),
        states[0].timeouts@ == Multiset::<TimeoutHolder>::empty(),
        states[0].scheduled@ == Seq::<Task<D>>::empty(),
        0 <= n < states.len(),
    ensures
        forall|t: TimeoutHolder| #[trigger]
            states[n].timeouts@.contains(t) ==> asked(changes, n, t),
        forall|i: int|
            0 <= i < states[n].scheduled@.len() && (#[trigger] states[n].scheduled@[i]).param is Timeout
                ==> ripened(
                states,
                changes,
                n,
                states[n].scheduled@[i].recipient,
                states[n].scheduled@[i].param->Timeout_0,
            ),
    decreases n,
{
    broadcast use vstd::multiset::group_multiset_axioms;

    if n > 0 {
        lemma_timeout_origins(states, changes, n - 1);
        let pre = states[n - 1];
        let post = states[n];
        let change = changes[n - 1];
        assert(Loop::happened(states[n - 1], states[n - 1 + 1], changes[n - 1]));
        assert forall|t: TimeoutHolder| #[trigger] post.timeouts@.contains(t) implies asked(
            changes,
            n,
            t,
        ) by {
            lemma_stored_origin(pre, post, change, t);
            if pre.timeouts@.contains(t) {
                let i = choose|i: int|
                    0 <= i < n - 1 && #[trigger] changes[i] == (Change::<Ev, D, Io>::TimeoutAdded {
                        handle: t.recipient,
                        when: t.when,
                        id: t.id,
                    });
                assert(0 <= i < n);
            } else {
                assert(changes[n - 1] == change);
            }
        }
        assert forall|i: int|
            0 <= i < post.scheduled@.len()
                && (#[trigger] post.scheduled@[i]).param is Timeout implies ripened(
            states,
            changes,
            n,
            post.scheduled@[i].recipient,
            post.scheduled@[i].param->Timeout_0,
        ) by {
            let id = post.scheduled@[i].param->Timeout_0;
            let handle = post.scheduled@[i].recipient;
            lemma_queued_origin(pre, post, change, i, id);
            if pre.scheduled@.contains(post.scheduled@[i]) {
                let j = choose|j: int|
                    0 <= j < pre.scheduled@.len() && pre.scheduled@[j] == post.scheduled@[i];
                assert(ripened(states, changes, n - 1, pre.scheduled@[j].recipient, id));
                let (k, when) = choose|k: int, when: i128|
                    {
                        &&& 0 <= k < n - 1
                        &&& #[trigger] asked(
                            changes,
                            k,
                            TimeoutHolder { id, recipient: handle, when },
                        )
                        &&& when <= states[k].now
                    };
                assert(0 <= k < n);
            } else {
                let when = choose|when: i128|
                    when <= pre.now && #[trigger] pre.timeouts@.contains(
                        TimeoutHolder { id, recipient: handle, when },
                    );
                assert(asked(changes, n - 1, TimeoutHolder { id, recipient: handle, when }));
            }
        }
    }
}

/// A stored timeout was stored before or is new.
proof fn lemma_stored_origin<Context, Ev, D, Io>(
    pre: Loop<Context, Ev, D, Io>,
    post: Loop<Context, Ev, D, Io>,
    change: Change<Ev, D, Io>,
    t: TimeoutHolder,
)
    requires
        Loop::happened(pre, post, change),
        post.timeouts@.contains(t),
    ensures
        pre.timeouts@.contains(t) || change == (Change::<Ev, D, Io>::TimeoutAdded {
            handle: t.recipient,
            when: t.when,
            id: t.id,
        }),
{
    broadcast use vstd::multiset::group_multiset_axioms;

}

/// A timeout in the queue was there before, or it was stored and its time has come.
proof fn lemma_queued_origin<Context, Ev, D, Io>(
    pre: Loop<Context, Ev, D, Io>,
    post: Loop<Context, Ev, D, Io>,
    change: Change<Ev, D, Io>,
    i: int,
    id: TimeoutId,
)
    requires
        Loop::happened(pre, post, change),
        0 <= i < post.scheduled@.len(),
        post.scheduled@[i].param == TaskParam::<D>::Timeout(id),
    ensures
        pre.scheduled@.contains(post.scheduled@[i]) || exists|when: i128|
            when <= pre.now && #[trigger] pre.timeouts@.contains(
                TimeoutHolder { id, recipient: post.scheduled@[i].recipient, when },
            ),
{
    broadcast use vstd::multiset::group_multiset_axioms;
    broadcast use vstd::seq_lib::group_to_multiset_ensures;

    let task = post.scheduled@[i];
    match change {
        Change::Fired(fired) | Change::Gathered(fired) => {
            if i < pre.scheduled@.len() {
                assert(pre.scheduled@[i] == task);
            } else {
                let t = fired[i - pre.scheduled@.len()];
                assert(task == timeout_task::<D>()(t));
                assert(fired.contains(t));
                assert(fired.to_multiset().count(t) > 0);
                assert(pre.timeouts@.contains(
                    TimeoutHolder { id, recipient: task.recipient, when: t.when },
                ));
            }
        },
        Change::Ran(step) => {
            law_queue_keeps_order(pre, post, step);
            let gone = pre.scheduled@.len() - post.scheduled@.len();
            assert(pre.scheduled@[gone + i] == task);
        },
        Change::SignalDelivered(_) => {
            if i < pre.scheduled@.len() {
                assert(pre.scheduled@[i] == task);
            }
        },
        _ => {
            if i < pre.scheduled@.len() {
                assert(pre.scheduled@[i] == task);
            }
        },
    }
}

/// A timeout that waits for its time isn't lost, as long as its event lives: whatever happens, it
/// keeps waiting or gets to the queue.
pub proof fn law_timeout_is_not_lost<Context, Ev, D, Io>(
    pre: Loop<Context, Ev, D, Io>,
    post: Loop<Context, Ev, D, Io>,
    change: Change<Ev, D, Io>,
    t: TimeoutHolder,
)
    requires
        Loop::happened(pre, post, change),
        pre.timeouts@.contains(t),
        pre.alive(t.recipient),
    ensures
        post.timeouts@.contains(t) || post.scheduled@.contains(
            Task { recipient: t.recipient, param: TaskParam::<D>::Timeout(t.id) },
        ),
{
    broadcast use vstd::multiset::group_multiset_axioms;
    broadcast use vstd::seq_lib::group_to_multiset_ensures;

    let f = for_one_of(live(gens(pre.events@)));
    assert(alive_in(gens(pre.events@), t.recipient));
    assert(f(t));
    assert(pre.timeouts@.filter(f).count(t) == pre.timeouts@.count(t));
    assert(post.timeouts@.filter(f).count(t) == post.timeouts@.count(t));
    match change {
        Change::Fired(fired) | Change::Gathered(fired) => {
            if t.when <= pre.now {
                assert(over(pre.now)(t));
                assert(fired.to_multiset().count(t) > 0);
                assert(fired.contains(t));
                let i = choose|i: int| 0 <= i < fired.len() && fired[i] == t;
                let tasks = fired.map_values(timeout_task::<D>());
                assert(tasks[i] == timeout_task::<D>()(t));
                assert(post.scheduled@[pre.scheduled@.len() + i] == tasks[i]);
            } else {
                assert(not_over(pre.now)(t));
            }
        },
        _ => {},
    }
}

/// What waits in the queue for a living event stays there until it is its turn. Then the event is
/// called with it, unless it is in the middle of another callback or lost the IO it is about.
pub proof fn law_queued_is_told<Context, Ev, D, Io>(
    pre: Loop<Context, Ev, D, Io>,
    post: Loop<Context, Ev, D, Io>,
    change: Change<Ev, D, Io>,
    i: int,
)
    requires
        Loop::happened(pre, post, change),
        0 <= i < pre.scheduled@.len(),
        pre.alive(pre.scheduled@[i].recipient),
    ensures
        post.scheduled@.contains(pre.scheduled@[i]) || {
            &&& change matches Change::Ran(step)
            &&& match step {
                Step::Call { handle, event, param } => handle == pre.scheduled@[i].recipient
                    && param == pre.scheduled@[i].param,
                Step::Done(Err(e)) => pre.busy(pre.scheduled@[i].recipient) && e == Error::Busy,
                Step::Done(Ok(_)) => pre.io_lost(pre.scheduled@[i]),
                Step::Gather => false,
            }
        },
{
    let task = pre.scheduled@[i];
    match change {
        Change::Ran(step) => {
            if !(step is Gather) {
                let k = choose|k: int|
                    {
                        &&& 0 <= k < pre.scheduled@.len()
                        &&& pre.alive(pre.scheduled@[k].recipient)
                        &&& forall|i: int|
                            0 <= i < k ==> !pre.alive((#[trigger] pre.scheduled@[i]).recipient)
                        &&& #[trigger] Loop::stepped(pre, post, k, step)
                    };
                if i > k {
                    assert(post.scheduled@[i - k - 1] == task);
                }
            }
        },
        _ => {
            assert(post.scheduled@[i] == task);
        },
    }
}

/// The event was told about the timeout in this part of the history.
pub open spec fn told<Ev, D, Io>(
    changes: Seq<Change<Ev, D, Io>>,
    from: int,
    to: int,
    handle: Handle,
    id: TimeoutId,
) -> bool {
    exists|m: int| from <= m < to && (#[trigger] changes[m]).tells(handle, id)
}

/// A timeout is told exactly once. If the event lives on, isn't in the middle of a callback whenever
/// a task is taken, the timeouts get gathered after the instant and the queue is worked off then,
/// the event is told about the timeout. Until the ids wrap around, nobody else is ever told about
/// it and the event isn't told again.
pub proof fn law_timeout_is_told<Context, Ev, D, Io>(
    states: Seq<Loop<Context, Ev, D, Io>>,
    changes: Seq<Change<Ev, D, Io>>,
    added: int,
    gathered: int,
    end: int,
    handle: Handle,
    when: i128,
    id: TimeoutId,
)
    requires
        Loop::history(states, changes),
        0 <= added < gathered < end < states.len(),
        changes[added] == (Change::<Ev, D, Io>::TimeoutAdded { handle, when, id }),
        changes[gathered] is Fired || changes[gathered] is Gathered,
        states[gathered].now >= when,
        states[end].scheduled@.len() == 0,
        forall|n: int| added < n <= end ==> (#[trigger] states[n]).alive(handle),
        forall|n: int|
            added < n < end && (#[trigger] changes[n]) is Ran ==> !states[n].busy(handle),
    ensures
        told(changes, added + 1, end, handle, id),
        !states.last().timeout_wrapped ==> forall|m: int, n: int, other: Handle|
            0 <= m < changes.len() && 0 <= n < changes.len() && (#[trigger] changes[m]).tells(
                handle,
                id,
            ) && #[trigger] changes[n].tells(other, id) ==> m == n && other == handle,
{
    let t = TimeoutHolder { id, recipient: handle, when };
    lemma_waits_until_told(states, changes, added, gathered, t);
    let pre = states[gathered];
    let post = states[gathered + 1];
    assert(Loop::happened(states[gathered], states[gathered + 1], changes[gathered]));
    let task = Task { recipient: handle, param: TaskParam::<D>::Timeout(id) };
    if !told(changes, added + 1, gathered, handle, id) {
        if pre.scheduled@.contains(task) {
            let i = choose|i: int| 0 <= i < pre.scheduled@.len() && pre.scheduled@[i] == task;
            law_queued_is_told(pre, post, changes[gathered], i);
        } else {
            lemma_fires_when_over(pre, post, changes[gathered], t);
        }
        lemma_queued_until_told(states, changes, gathered + 1, end, handle, id);
        assert(told(changes, gathered + 1, end, handle, id));
        let m = choose|m: int|
            gathered + 1 <= m < end && (#[trigger] changes[m]).tells(handle, id);
        assert(added + 1 <= m < end);
    } else {
        let m = choose|m: int|
            added + 1 <= m < gathered && (#[trigger] changes[m]).tells(handle, id);
        assert(added + 1 <= m < end);
    }
    if !states.last().timeout_wrapped {
        assert forall|m: int, n: int, other: Handle|
            0 <= m < changes.len() && 0 <= n < changes.len() && (#[trigger] changes[m]).tells(
                handle,
                id,
            ) && #[trigger] changes[n].tells(other, id) implies m == n && other == handle by {
            law_timeout_is_told_once(states, changes, m, n, handle, other, id);
        }
    }
}

/// A timeout whose time has come gets to the queue by a gathering.
proof fn lemma_fires_when_over<Context, Ev, D, Io>(
    pre: Loop<Context, Ev, D, Io>,
    post: Loop<Context, Ev, D, Io>,
    change: Change<Ev, D, Io>,
    t: TimeoutHolder,
)
    requires
        Loop::happened(pre, post, change),
        change is Fired || change is Gathered,
        pre.timeouts@.contains(t),
        pre.alive(t.recipient),
        t.when <= pre.now,
    ensures
        post.scheduled@.contains(
            Task { recipient: t.recipient, param: TaskParam::<D>::Timeout(t.id) },
        ),
{
    broadcast use vstd::multiset::group_multiset_axioms;

    law_timeout_is_not_lost(pre, post, change, t);
    assert(!not_over(pre.now)(t));
    assert(post.timeouts@.count(t) == 0);
}

/// A timeout the event asked for waits, for its time or to be delivered, until it is told.
proof fn lemma_waits_until_told<Context, Ev, D, Io>(
    states: Seq<Loop<Context, Ev, D, Io>>,
    changes: Seq<Change<Ev, D, Io>>,
    added: int,
    n: int,
    t: TimeoutHolder,
)
    requires
        Loop::history(states, changes),
        0 <= added < n < states.len(),
        changes[added] == (Change::<Ev, D, Io>::TimeoutAdded {
            handle: t.recipient,
            when: t.when,
            id: t.id,
        }),
        forall|k: int| added < k <= n ==> (#[trigger] states[k]).alive(t.recipient),
        forall|k: int|
            added < k < n && (#[trigger] changes[k]) is Ran ==> !states[k].busy(t.recipient),
    ensures
        states[n].timeouts@.contains(t) || states[n].scheduled@.contains(
            Task { recipient: t.recipient, param: TaskParam::<D>::Timeout(t.id) },
        ) || told(changes, added + 1, n, t.recipient, t.id),
    decreases n - added,
{
    broadcast use vstd::multiset::group_multiset_axioms;

    let task = Task { recipient: t.recipient, param: TaskParam::<D>::Timeout(t.id) };
    if n == added + 1 {
        assert(Loop::happened(states[added], states[added + 1], changes[added]));
    } else {
        lemma_waits_until_told(states, changes, added, n - 1, t);
        let pre = states[n - 1];
        assert(Loop::happened(states[n - 1], states[n - 1 + 1], changes[n - 1]));
        if told(changes, added + 1, n - 1, t.recipient, t.id) {
            let m = choose|m: int|
                added + 1 <= m < n - 1 && (#[trigger] changes[m]).tells(t.recipient, t.id);
            assert(added + 1 <= m < n);
        } else if pre.scheduled@.contains(task) {
            lemma_queued_or_told(pre, states[n], changes[n - 1], t.recipient, t.id);
        } else {
            law_timeout_is_not_lost(pre, states[n], changes[n - 1], t);
        }
    }
}

/// A timeout in the queue stays there or is told.
proof fn lemma_queued_or_told<Context, Ev, D, Io>(
    pre: Loop<Context, Ev, D, Io>,
    post: Loop<Context, Ev, D, Io>,
    change: Change<Ev, D, Io>,
    handle: Handle,
    id: TimeoutId,
)
    requires
        Loop::happened(pre, post, change),
        pre.scheduled@.contains(Task { recipient: handle, param: TaskParam::<D>::Timeout(id) }),
        pre.alive(handle),
        change is Ran ==> !pre.busy(handle),
    ensures
        post.scheduled@.contains(Task { recipient: handle, param: TaskParam::<D>::Timeout(id) })
            || change.tells(handle, id),
{
    let task = Task { recipient: handle, param: TaskParam::<D>::Timeout(id) };
    let i = choose|i: int| 0 <= i < pre.scheduled@.len() && pre.scheduled@[i] == task;
    law_queued_is_told(pre, post, change, i);
}

/// Once in the queue, a timeout is there until it is told.
proof fn lemma_queued_until_told<Context, Ev, D, Io>(
    states: Seq<Loop<Context, Ev, D, Io>>,
    changes: Seq<Change<Ev, D, Io>>,
    i: int,
    j: int,
    handle: Handle,
    id: TimeoutId,
)
    requires
        Loop::history(states, changes),
        0 <= i <= j < states.len(),
        states[i].scheduled@.contains(
            Task { recipient: handle, param: TaskParam::<D>::Timeout(id) },
        ),
        forall|k: int| i <= k <= j ==> (#[trigger] states[k]).alive(handle),
        forall|k: int| i <= k < j && (#[trigger] changes[k]) is Ran ==> !states[k].busy(handle),
    ensures
        states[j].scheduled@.contains(
            Task { recipient: handle, param: TaskParam::<D>::Timeout(id) },
        ) || told(changes, i, j, handle, id),
    decreases j - i,
{
    if i < j {
        lemma_queued_until_told(states, changes, i, j - 1, handle, id);
        assert(Loop::happened(states[j - 1], states[j - 1 + 1], changes[j - 1]));
        if told(changes, i, j - 1, handle, id) {
            let m = choose|m: int| i <= m < j - 1 && (#[trigger] changes[m]).tells(handle, id);
            assert(i <= m < j);
        } else {
            lemma_queued_or_told(states[j - 1], states[j], changes[j - 1], handle, id);
        }
    }
}

/// No timeout of a living event gets lost when a gathering starts.
pub proof fn law_timeouts_survive<Context, Ev, D, Io>(
    pre: Loop<Context, Ev, D, Io>,
    post: Loop<Context, Ev, D, Io>,
    t: TimeoutHolder,
)
    requires
        Loop::gather_started(pre, post),
        pre.alive(t.recipient),
    ensures
        post.timeouts@.count(t) == pre.timeouts@.count(t),
{
    broadcast use vstd::multiset::group_multiset_axioms;

    let g = gens(pre.events@);
    let f = for_one_of(live(g));
    assert(alive_in(g, t.recipient));
    assert(f(t));
    assert(post.timeouts@.filter(f).count(t) == post.timeouts@.count(t));
    assert(pre.timeouts@.filter(f).count(t) == pre.timeouts@.count(t));
}

/// The loop doesn't oversleep: no timeout of a living event comes sooner than the wakeup, except
/// for those already late, in which case there's no waiting.
pub proof fn law_no_oversleeping<Context, Ev, D, Io>(
    l: Loop<Context, Ev, D, Io>,
    now: i128,
    wait: Option<u128>,
    t: TimeoutHolder,
)
    requires
        l.wakes_up(now, wait),
        l.timeouts@.contains(t),
        l.alive(t.recipient),
    ensures
        wait is Some,
        wait->0 == 0 || now + wait->0 <= t.when,
{
    broadcast use vstd::multiset::group_multiset_axioms;

    let g = gens(l.events@);
    let f = for_one_of(live(g));
    assert(alive_in(g, t.recipient));
    assert(f(t));
    assert(l.timeouts@.filter(f).contains(t));
}

/// An IO belongs to one event at most.
pub proof fn law_io_has_one_owner<Context, Ev, D, Io>(
    l: Loop<Context, Ev, D, Io>,
    a: Handle,
    b: Handle,
    id: IoId,
)
    requires
        l.wf(),
        l.owns_io(a, id),
        l.owns_io(b, id),
    ensures
        a == b,
{
    reveal(ios_wf);
    let k = id.index() as usize;
    let keys = io_keys(l.events@);
    assert(alive_in(gens(l.events@), a));
    assert(alive_in(gens(l.events@), b));
    assert(keys[a.id as int].contains(k));
    assert(keys[b.id as int].contains(k));
}

/// The readiness of an IO gets to the event that registered it.
pub proof fn law_io_reaches_its_owner<Context, Ev, D, Io>(
    pre: Loop<Context, Ev, D, Io>,
    post: Loop<Context, Ev, D, Io>,
    handle: Handle,
    io: Io,
    id: IoId,
    ready: mio::Ready,
)
    requires
        pre.alive(handle),
        Loop::io_added(pre, post, handle, io, id),
    ensures
        post.ios@.dom().contains(id.index()),
        post.ios@[id.index()] == handle,
        post.owns_io(handle, id),
        post.holder(handle).ios@[id.index() as usize] == io,
        !post.io_lost(Task { recipient: handle, param: TaskParam::Io(id, ready) }),
{
}

/// The id the next IO gets belongs to no event. It isn't held after an IO was removed or its event
/// killed either, so nothing waiting in the queue for an old IO can be taken for the new one.
pub proof fn law_io_ids_are_not_reused_too_soon<Context, Ev, D, Io>(
    l: Loop<Context, Ev, D, Io>,
    handle: Handle,
    k: usize,
)
    requires
        l.wf(),
        k == l.ios.next_index(),
    ensures
        !l.ios_released@.contains(k),
        l.alive(handle) ==> !l.holder(handle).ios@.dom().contains(k),
{
    reveal(ios_wf);
    let keys = io_keys(l.events@);
    if l.ios.free@.len() > 0 {
        assert(l.ios.free@[l.ios.free@.len() - 1] == k);
        assert(l.ios.data@[k as int] is None);
    }
    assert(!l.ios@.dom().contains(k as int));
    if l.alive(handle) {
        assert(alive_in(gens(l.events@), handle));
        assert(keys[handle.id as int] == l.holder(handle).ios@.dom());
        assert(!keys[handle.id as int].contains(k));
    }
}

/// The id of an IO that was given up stays held until the next gathering starts, and no new IO gets
/// it by then.
pub proof fn law_released_ids_stay_held<Context, Ev, D, Io>(
    states: Seq<Loop<Context, Ev, D, Io>>,
    changes: Seq<Change<Ev, D, Io>>,
    i: int,
    j: int,
    k: usize,
)
    requires
        Loop::history(states, changes),
        0 <= i <= j < states.len(),
        forall|n: int| i <= n < j ==> !((#[trigger] changes[n]) is GatherStarted),
        states[i].ios_released@.contains(k),
    ensures
        states[j].ios_released@.contains(k),
        forall|n: int|
            i <= n < j ==> ((#[trigger] changes[n]) is IoAdded ==> changes[n]->IoAdded_io_id.index()
                != k),
    decreases j - i,
{
    if i < j {
        law_released_ids_stay_held(states, changes, i, j - 1, k);
        let pre = states[j - 1];
        assert(Loop::happened(states[j - 1], states[j - 1 + 1], changes[j - 1]));
        assert(pre.wf());
        reveal(ios_wf);
        assert(pre.ios@.dom().contains(k as int));
    }
}

/// The readiness of an IO that was removed in the meantime is lost.
pub proof fn law_removed_io_is_lost<Context, Ev, D, Io>(
    pre: Loop<Context, Ev, D, Io>,
    post: Loop<Context, Ev, D, Io>,
    handle: Handle,
    id: IoId,
    task: Task<D>,
)
    requires
        Loop::io_removed(pre, post, handle, id),
        task.recipient == handle,
        task.param is Io,
        task.param->Io_0 == id,
    ensures
        post.io_lost(task),
{
}

/// A signal is broadcasted: every event that registered for it is told exactly once and nobody else
/// is.
pub proof fn law_signal_is_broadcasted<Context, Ev, D, Io>(
    l: Loop<Context, Ev, D, Io>,
    signal: Signal,
    handle: Handle,
)
    requires
        l.wf(),
    ensures
        signal_tasks::<D>(l.signal_recipients@, signal).no_duplicates(),
        signal_tasks::<D>(l.signal_recipients@, signal).contains(
            Task { recipient: handle, param: TaskParam::Signal(signal) },
        ) <==> l.signal_recipients@.contains((signal.num(), handle)),
{
    reveal(signals_wf);
    let all = l.signal_recipients@;
    let f = wants(signal.num());
    let some = all.filter(f);
    let tasks = signal_tasks::<D>(all, signal);
    let task: Task<D> = Task { recipient: handle, param: TaskParam::Signal(signal) };
    lemma_filter_unique(all, f);
    assert forall|i: int, j: int| 0 <= i < tasks.len() && 0 <= j < tasks.len() && i != j implies
        tasks[i] != tasks[j] by {
        assert(f(some[i]));
        assert(f(some[j]));
        assert(some[i] != some[j]);
    }
    if tasks.contains(task) {
        let i = choose|i: int| 0 <= i < tasks.len() && tasks[i] == task;
        assert(f(some[i]));
        assert(all.contains(some[i]));
    }
    if all.contains((signal.num(), handle)) {
        let j = choose|j: int| 0 <= j < all.len() && all[j] == (signal.num(), handle);
        lemma_filter_keeps(all, f, j);
        let i = choose|i: int| 0 <= i < some.len() && some[i] == all[j];
        assert(tasks[i] == task);
    }
}

/// What a signal leads to depends only on its number.
pub proof fn law_signal_is_its_number<D>(
    recipients: Seq<(i32, Handle)>,
    a: Signal,
    b: Signal,
)
    requires
        a.num() == b.num(),
    ensures
        a == b,
        signal_tasks::<D>(recipients, a) == signal_tasks::<D>(recipients, b),
{
    lemma_signal_num(a, b);
}

/// What fits stays when the rest is left out.
pub proof fn lemma_filter_keeps<A>(s: Seq<A>, f: spec_fn(A) -> bool, j: int)
    requires
        0 <= j < s.len(),
        f(s[j]),
    ensures
        s.filter(f).contains(s[j]),
    decreases s.len(),
{
    reveal(Seq::filter);
    let t = s.drop_last();
    if j == s.len() - 1 {
        assert(s.filter(f)[t.filter(f).len() as int] == s[j]);
    } else {
        lemma_filter_keeps(t, f, j);
        let i = choose|i: int| 0 <= i < t.filter(f).len() && t.filter(f)[i] == t[j];
        assert(s.filter(f)[i] == s[j]);
    }
}

/// A child process is tracked by one event at most.
pub proof fn law_child_has_one_tracker<Context, Ev, D, Io>(
    l: Loop<Context, Ev, D, Io>,
    a: Handle,
    b: Handle,
    pid: i32,
)
    requires
        l.wf(),
        l.alive(a),
        l.alive(b),
        l.holder(a).children@.contains(pid),
        l.holder(b).children@.contains(pid),
    ensures
        a == b,
        l.children@.dom().contains(pid),
        l.children@[pid] == a,
{
    reveal(children_wf);
    let known = kids(l.events@);
    assert(alive_in(gens(l.events@), a));
    assert(alive_in(gens(l.events@), b));
    assert(known[a.id as int].contains(pid));
    assert(known[b.id as int].contains(pid));
}

/// The end of a child is told to the event that tracks it, once: the child isn't tracked any more.
pub proof fn law_child_exit_is_told_once<Context, Ev, D, Io>(
    pre: Loop<Context, Ev, D, Io>,
    post: Loop<Context, Ev, D, Io>,
    handle: Handle,
    pid: i32,
    exit: ChildExit,
)
    requires
        pre.wf(),
        pre.children@.dom().contains(pid),
        pre.children@[pid] == handle,
        Loop::child_exited(pre, post, pid, exit),
    ensures
        pre.alive(handle),
        post.scheduled@ == pre.scheduled@.push(
            Task { recipient: handle, param: TaskParam::Child(pid, exit) },
        ),
        !post.children@.dom().contains(pid),
        !post.holder(handle).children@.contains(pid),
{
}

/// A child that is tracked stays so, by the same event, until it terminates or the event is killed.
pub proof fn law_child_stays_tracked<Context, Ev, D, Io>(
    pre: Loop<Context, Ev, D, Io>,
    post: Loop<Context, Ev, D, Io>,
    change: Change<Ev, D, Io>,
    handle: Handle,
    pid: i32,
)
    requires
        pre.wf(),
        Loop::happened(pre, post, change),
        pre.children@.dom().contains(pid),
        pre.children@[pid] == handle,
        !(change matches Change::ChildExited { pid: p, exit } && p == pid),
        !(change matches Change::Killed { handle: h } && h == handle),
    ensures
        post.children@.dom().contains(pid),
        post.children@[pid] == handle,
{
    if let Change::Killed { handle: h } = change {
        reveal(children_wf);
        let known = kids(pre.events@);
        assert(alive_in(gens(pre.events@), h));
        assert(known[h.id as int] == pre.holder(h).children@);
        if pre.holder(h).children@.contains(pid) {
            assert(known[h.id as int].contains(pid));
        }
    }
}

/// The idle events have to wait if there's anything else to do. If there isn't, the one waiting for
/// the longest time is called.
pub proof fn law_idle_comes_last<Context, Ev, D, Io>(
    pre: Loop<Context, Ev, D, Io>,
    post: Loop<Context, Ev, D, Io>,
    fired: Seq<TimeoutHolder>,
)
    requires
        Loop::gathered(pre, post, fired),
    ensures
        pre.scheduled@.len() > 0 || fired.len() > 0 ==> post.want_idle@ == pre.want_idle@
            && post.scheduled@.len() == pre.scheduled@.len() + fired.len(),
        pre.scheduled@.len() == 0 && fired.len() == 0 && pre.want_idle@.len() > 0
            ==> post.scheduled@ == seq![
            Task { recipient: pre.want_idle@.first(), param: TaskParam::<D>::Idle },
        ],
{
}

/// An event waits for the loop to be idle at most once, no matter how often it asks, and gets to
/// the end of the queue by asking.
pub proof fn law_idle_is_registered_once<Context, Ev, D, Io>(
    pre: Loop<Context, Ev, D, Io>,
    post: Loop<Context, Ev, D, Io>,
    handle: Handle,
)
    requires
        pre.wf(),
        post.wf(),
        Loop::idle_added(pre, post, handle),
    ensures
        post.want_idle@.no_duplicates(),
        post.want_idle@.last() == handle,
        forall|other: Handle|
            other != handle ==> (#[trigger] post.want_idle@.contains(other)
                <==> pre.want_idle@.contains(other)),
{
    reveal(idle_wf);
    let f = differs(handle);
    lemma_filter_unique(pre.want_idle@, f);
    let rest = pre.want_idle@.filter(f);
    assert forall|other: Handle| other != handle implies (#[trigger] post.want_idle@.contains(other)
        <==> pre.want_idle@.contains(other)) by {
        if post.want_idle@.contains(other) {
            let i = choose|i: int| 0 <= i < post.want_idle@.len() && post.want_idle@[i] == other;
            assert(rest[i] == other);
            assert(pre.want_idle@.contains(rest[i]));
        }
        if pre.want_idle@.contains(other) {
            let j = choose|j: int| 0 <= j < pre.want_idle@.len() && pre.want_idle@[j] == other;
            lemma_filter_keeps(pre.want_idle@, f, j);
            let i = choose|i: int| 0 <= i < rest.len() && rest[i] == other;
            assert(post.want_idle@[i] == other);
        }
    }
}

/// Stopping terminates the innermost run only: once it is over, the one around goes on if it did
/// before. Whatever happens in the loop in the meantime makes no difference to that.
///
/// The run starts in `before` and is stopped in `inside`. It notices in `last` and ends then.
pub proof fn law_stop_ends_the_innermost_run<Context, Ev, D, Io>(
    before: Loop<Context, Ev, D, Io>,
    started: Loop<Context, Ev, D, Io>,
    saved: bool,
    inside: Loop<Context, Ev, D, Io>,
    stopped: Loop<Context, Ev, D, Io>,
    last: Loop<Context, Ev, D, Io>,
    ended: Loop<Context, Ev, D, Io>,
)
    requires
        (started == Loop { active: true, ..before }),
        saved == before.active,
        (stopped == Loop { active: false, ..inside }),
        (ended == Loop { active: saved, ..last }),
    ensures
        started.active,
        !stopped.active,
        ended.active == before.active,
        (ended == Loop { active: ended.active, ..last }),
{
}

/// Only the notifiers with nobody at the other end are dropped, the rest stay in order. That a
/// wakeup already waits there is no reason to drop one.
pub proof fn law_connected_stay_registered<N>(woken: Seq<(N, Wakeup)>)
    ensures
        (forall|i: int| 0 <= i < woken.len() ==> (#[trigger] woken[i]).1 != Wakeup::Disconnected)
            ==> kept(woken) == woken.map_values(|w: (N, Wakeup)| w.0),
        (forall|i: int| 0 <= i < woken.len() ==> (#[trigger] woken[i]).1 == Wakeup::Disconnected)
            ==> kept(woken).len() == 0,
        forall|i: int|
            0 <= i < woken.len() && (#[trigger] woken[i]).1 != Wakeup::Disconnected ==> kept(
                woken,
            ).contains(woken[i].0),
        forall|j: int|
            0 <= j < kept(woken).len() ==> exists|i: int|
                0 <= i < woken.len() && (#[trigger] woken[i]).1 != Wakeup::Disconnected
                    && woken[i].0 == #[trigger] kept(woken)[j],
{
    let f = connected::<N>();
    let some = woken.filter(f);
    lemma_filter_unique(woken, f);
    assert forall|i: int|
        0 <= i < woken.len() && (#[trigger] woken[i]).1 != Wakeup::Disconnected implies kept(
        woken,
    ).contains(woken[i].0) by {
        lemma_filter_keeps(woken, f, i);
        let j = choose|j: int| 0 <= j < some.len() && some[j] == woken[i];
        assert(kept(woken)[j] == woken[i].0);
    }
    assert forall|j: int| 0 <= j < kept(woken).len() implies exists|i: int|
        0 <= i < woken.len() && (#[trigger] woken[i]).1 != Wakeup::Disconnected && woken[i].0
            == #[trigger] kept(woken)[j] by {
        assert(f(some[j]) && woken.contains(some[j]));
        let i = choose|i: int| 0 <= i < woken.len() && woken[i] == some[j];
        assert(woken[i].0 == kept(woken)[j]);
    }
    if forall|i: int| 0 <= i < woken.len() ==> (#[trigger] woken[i]).1 != Wakeup::Disconnected {
        lemma_filter_all(woken, f);
    }
    if kept(woken).len() > 0 {
        let i = choose|i: int|
            0 <= i < woken.len() && (#[trigger] woken[i]).1 != Wakeup::Disconnected && woken[i].0
                == kept(woken)[0];
        assert(woken[i].1 != Wakeup::Disconnected);
    }
}

/// If everything fits, nothing is left out.
proof fn lemma_filter_all<A>(s: Seq<A>, f: spec_fn(A) -> bool)
    requires
        forall|i: int| 0 <= i < s.len() ==> f(#[trigger] s[i]),
    ensures
        s.filter(f) == s,
    decreases s.len(),
{
    reveal(Seq::filter);
    if s.len() > 0 {
        let t = s.drop_last();
        assert forall|i: int| 0 <= i < t.len() implies f(#[trigger] t[i]) by {
            assert(t[i] == s[i]);
        }
        lemma_filter_all(t, f);
        assert(f(s[s.len() - 1]));
        assert(t.push(s.last()) =~= s);
    }
}

} // verus!
