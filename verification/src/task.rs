//! What is ready to be delivered to the events.
use vstd::multiset::Multiset;
use vstd::prelude::*;

use mio::Ready;

use crate::handle::{Handle, IoId, TimeoutId};
use crate::message::Message;
use crate::signal::{ChildExit, Signal};
use crate::timers::TimeoutHolder;

verus! {

/// The readiness of an IO, as the `mio` crate reports it. It is only carried to the event.
#[verifier::external_type_specification]
#[verifier::external_body]
pub struct ExReady(Ready);

/// What should be delivered.
#[derive(Debug)]
pub enum TaskParam<D> {
    /// The IO is ready.
    Io(IoId, Ready),
    /// The timeout happened.
    Timeout(TimeoutId),
    /// The signal came.
    Signal(Signal),
    /// Someone sent a message.
    Message(Message<D>),
    /// The child process with the given PID terminated.
    Child(i32, ChildExit),
    /// There is nothing better to do.
    Idle,
}

/// Which callback of an event is to be called.
#[derive(Debug)]
pub enum Callback<D> {
    /// The one for an event just inserted.
    Init,
    /// The one to deliver something.
    Run(TaskParam<D>),
}

/// Something to be delivered and the event to deliver it to.
#[derive(Debug)]
pub struct Task<D> {
    pub recipient: Handle,
    pub param: TaskParam<D>,
}

/// Is the task a timeout for one of these events? (One if so, zero otherwise.)
pub open spec fn timeout_weight<D>(t: Task<D>, s: Set<Handle>) -> nat {
    if t.param is Timeout && s.contains(t.recipient) {
        1
    } else {
        0
    }
}

/// How many timeouts for these events wait in the queue.
pub open spec fn queued<D>(q: Seq<Task<D>>, s: Set<Handle>) -> nat
    decreases q.len(),
{
    if q.len() == 0 {
        0
    } else {
        queued(q.drop_last(), s) + timeout_weight(q.last(), s)
    }
}

/// The timeout is for one of these events.
pub open spec fn for_one_of(s: Set<Handle>) -> spec_fn(TimeoutHolder) -> bool {
    |t: TimeoutHolder| s.contains(t.recipient)
}

/// How many timeouts for these events wait for their time.
pub open spec fn due(m: Multiset<TimeoutHolder>, s: Set<Handle>) -> nat {
    m.filter(for_one_of(s)).len()
}

/// How many timeouts for these events wait, either for their time or to be delivered.
pub open spec fn pending<D>(
    m: Multiset<TimeoutHolder>,
    q: Seq<Task<D>>,
    s: Set<Handle>,
) -> nat {
    due(m, s) + queued(q, s)
}

/// Is the task the timeout with the id? (One if so, zero otherwise.)
pub open spec fn id_weight<D>(t: Task<D>, id: TimeoutId) -> nat {
    if t.param == TaskParam::<D>::Timeout(id) {
        1
    } else {
        0
    }
}

/// How many timeouts with the id wait in the queue.
pub open spec fn id_queued<D>(q: Seq<Task<D>>, id: TimeoutId) -> nat
    decreases q.len(),
{
    if q.len() == 0 {
        0
    } else {
        id_queued(q.drop_last(), id) + id_weight(q.last(), id)
    }
}

/// The timeout has the id.
pub open spec fn with_id(id: TimeoutId) -> spec_fn(TimeoutHolder) -> bool {
    |t: TimeoutHolder| t.id == id
}

/// How many timeouts with the id wait for their time.
pub open spec fn stored(m: Multiset<TimeoutHolder>, id: TimeoutId) -> nat {
    m.filter(with_id(id)).len()
}

/// How many timeouts with the id wait, either for their time or to be delivered.
pub open spec fn waiting<D>(
    m: Multiset<TimeoutHolder>,
    q: Seq<Task<D>>,
    id: TimeoutId,
) -> nat {
    stored(m, id) + id_queued(q, id)
}

/// Adding a task at the end of the queue.
pub proof fn lemma_id_push<D>(q: Seq<Task<D>>, t: Task<D>, id: TimeoutId)
    ensures
        id_queued(q.push(t), id) == id_queued(q, id) + id_weight(t, id),
{
    assert(q.push(t).drop_last() =~= q);
}

/// Taking a task from the front of the queue.
pub proof fn lemma_id_first<D>(q: Seq<Task<D>>, id: TimeoutId)
    requires
        q.len() > 0,
    ensures
        id_queued(q, id) == id_weight(q.first(), id) + id_queued(q.drop_first(), id),
    decreases q.len(),
{
    if q.len() > 1 {
        lemma_id_first(q.drop_last(), id);
        assert(q.drop_first().drop_last() =~= q.drop_last().drop_first());
        assert(q.drop_first().last() == q.last());
    } else {
        assert(q.drop_first() =~= Seq::<Task<D>>::empty());
        assert(q.drop_last() =~= Seq::<Task<D>>::empty());
    }
}

/// Adding a timeout.
pub proof fn lemma_stored_insert(m: Multiset<TimeoutHolder>, t: TimeoutHolder, id: TimeoutId)
    ensures
        stored(m.insert(t), id) == stored(m, id) + (if t.id == id {
            1nat
        } else {
            0nat
        }),
{
    broadcast use vstd::multiset::group_multiset_axioms;

    let f = with_id(id);
    if t.id == id {
        assert(m.insert(t).filter(f) =~= m.filter(f).insert(t));
    } else {
        assert(m.insert(t).filter(f) =~= m.filter(f));
    }
}

/// Removing a timeout.
pub proof fn lemma_stored_remove(m: Multiset<TimeoutHolder>, t: TimeoutHolder, id: TimeoutId)
    requires
        m.contains(t),
    ensures
        stored(m, id) == stored(m.remove(t), id) + (if t.id == id {
            1nat
        } else {
            0nat
        }),
{
    broadcast use vstd::multiset::group_multiset_axioms;

    assert(m.remove(t).insert(t) =~= m);
    lemma_stored_insert(m.remove(t), t, id);
}

/// There is nothing to count in an empty heap.
pub proof fn lemma_stored_empty(id: TimeoutId)
    ensures
        stored(Multiset::<TimeoutHolder>::empty(), id) == 0,
{
    broadcast use vstd::multiset::group_multiset_axioms;

    let m = Multiset::<TimeoutHolder>::empty();
    assert(m.filter(with_id(id)) =~= m);
}

/// There is no more to count after leaving something out.
pub proof fn lemma_stored_subset(
    a: Multiset<TimeoutHolder>,
    b: Multiset<TimeoutHolder>,
    id: TimeoutId,
)
    requires
        a.subset_of(b),
    ensures
        stored(a, id) <= stored(b, id),
{
    broadcast use vstd::multiset::group_multiset_axioms;

    let f = with_id(id);
    let rest = b.sub(a);
    assert(b.filter(f) =~= a.filter(f).add(rest.filter(f)));
}

/// Adding a task at the end of the queue.
pub proof fn lemma_queued_push<D>(q: Seq<Task<D>>, t: Task<D>, s: Set<Handle>)
    ensures
        queued(q.push(t), s) == queued(q, s) + timeout_weight(t, s),
{
    assert(q.push(t).drop_last() =~= q);
}

/// Taking a task from the front of the queue.
pub proof fn lemma_queued_first<D>(q: Seq<Task<D>>, s: Set<Handle>)
    requires
        q.len() > 0,
    ensures
        queued(q, s) == timeout_weight(q.first(), s) + queued(q.drop_first(), s),
    decreases q.len(),
{
    if q.len() > 1 {
        lemma_queued_first(q.drop_last(), s);
        assert(q.drop_first().drop_last() =~= q.drop_last().drop_first());
        assert(q.drop_first().last() == q.last());
    } else {
        assert(q.drop_first() =~= Seq::<Task<D>>::empty());
        assert(q.drop_last() =~= Seq::<Task<D>>::empty());
    }
}

/// Counting for one more event.
proof fn lemma_queued_insert<D>(q: Seq<Task<D>>, s: Set<Handle>, h: Handle)
    requires
        !s.contains(h),
    ensures
        queued(q, s.insert(h)) == queued(q, s) + queued(q, set![h]),
    decreases q.len(),
{
    if q.len() > 0 {
        lemma_queued_insert(q.drop_last(), s, h);
    }
}

/// Counting for fewer events doesn't count more.
proof fn lemma_queued_subset<D>(q: Seq<Task<D>>, a: Set<Handle>, b: Set<Handle>)
    requires
        a.subset_of(b),
    ensures
        queued(q, a) <= queued(q, b),
    decreases q.len(),
{
    if q.len() > 0 {
        lemma_queued_subset(q.drop_last(), a, b);
    }
}

/// There are no timeouts in the queue.
pub open spec fn no_timeouts<D>(q: Seq<Task<D>>) -> bool {
    forall|i: int| 0 <= i < q.len() ==> !((#[trigger] q[i]).param is Timeout)
}

/// If there are no timeouts in the queue, there are none to count.
pub proof fn lemma_queued_none<D>(q: Seq<Task<D>>, s: Set<Handle>)
    requires
        no_timeouts(q),
    ensures
        queued(q, s) == 0,
    decreases q.len(),
{
    if q.len() > 0 {
        assert(q.last() == q[q.len() - 1]);
        lemma_queued_none(q.drop_last(), s);
    }
}

/// If no timeout in the queue is for these events, there are none to count.
pub proof fn lemma_queued_unrelated<D>(q: Seq<Task<D>>, s: Set<Handle>)
    requires
        forall|i: int|
            0 <= i < q.len() ==> !((#[trigger] q[i]).param is Timeout && s.contains(
                q[i].recipient,
            )),
    ensures
        queued(q, s) == 0,
    decreases q.len(),
{
    if q.len() > 0 {
        assert(q.last() == q[q.len() - 1]);
        lemma_queued_unrelated(q.drop_last(), s);
    }
}

/// If there is a timeout for one of these events, it is counted.
pub proof fn lemma_queued_some<D>(q: Seq<Task<D>>, s: Set<Handle>, i: int)
    requires
        0 <= i < q.len(),
        q[i].param is Timeout,
        s.contains(q[i].recipient),
    ensures
        queued(q, s) > 0,
    decreases q.len(),
{
    if i < q.len() - 1 {
        lemma_queued_some(q.drop_last(), s, i);
    }
}

/// Adding a timeout.
pub proof fn lemma_due_insert(m: Multiset<TimeoutHolder>, t: TimeoutHolder, s: Set<Handle>)
    ensures
        due(m.insert(t), s) == due(m, s) + (if s.contains(t.recipient) {
            1nat
        } else {
            0nat
        }),
{
    broadcast use vstd::multiset::group_multiset_axioms;

    let f = for_one_of(s);
    if s.contains(t.recipient) {
        assert(m.insert(t).filter(f) =~= m.filter(f).insert(t));
    } else {
        assert(m.insert(t).filter(f) =~= m.filter(f));
    }
}

/// Removing a timeout.
pub proof fn lemma_due_remove(m: Multiset<TimeoutHolder>, t: TimeoutHolder, s: Set<Handle>)
    requires
        m.contains(t),
    ensures
        due(m, s) == due(m.remove(t), s) + (if s.contains(t.recipient) {
            1nat
        } else {
            0nat
        }),
{
    broadcast use vstd::multiset::group_multiset_axioms;

    assert(m.remove(t).insert(t) =~= m);
    lemma_due_insert(m.remove(t), t, s);
}

/// There is something to count for an event if and only if a timeout is for it.
pub proof fn lemma_due_of(m: Multiset<TimeoutHolder>, h: Handle)
    ensures
        due(m, set![h]) > 0 <==> exists|t: TimeoutHolder| #[trigger]
            m.contains(t) && t.recipient == h,
{
    broadcast use vstd::multiset::group_multiset_axioms;

    let found = m.filter(for_one_of(set![h]));
    if found.len() > 0 {
        let t = found.choose();
        assert(found.count(t) > 0);
        assert(m.contains(t));
        assert(t.recipient == h);
    }
    if exists|t: TimeoutHolder| #[trigger] m.contains(t) && t.recipient == h {
        let t = choose|t: TimeoutHolder| #[trigger] m.contains(t) && t.recipient == h;
        assert(found.count(t) > 0);
    }
}

/// Counting for all events counts all timeouts.
pub proof fn lemma_due_full(m: Multiset<TimeoutHolder>)
    ensures
        due(m, Set::full()) == m.len(),
{
    broadcast use vstd::multiset::group_multiset_axioms;

    assert(m.filter(for_one_of(Set::<Handle>::full())) =~= m);
}

/// There is nothing to count in an empty heap.
pub proof fn lemma_due_empty(s: Set<Handle>)
    ensures
        due(Multiset::<TimeoutHolder>::empty(), s) == 0,
{
    broadcast use vstd::multiset::group_multiset_axioms;

    let m = Multiset::<TimeoutHolder>::empty();
    assert(m.filter(for_one_of(s)) =~= m);
}

/// Counting after leaving out the timeouts of the other events.
pub proof fn lemma_due_filter(m: Multiset<TimeoutHolder>, kept: Set<Handle>, s: Set<Handle>)
    ensures
        due(m.filter(for_one_of(kept)), s) == due(
            m,
            s.intersect(kept),
        ),
{
    broadcast use vstd::multiset::group_multiset_axioms;

    assert(m.filter(for_one_of(kept)).filter(
        for_one_of(s),
    ) =~= m.filter(for_one_of(s.intersect(kept))));
}

/// Counting for one more event.
proof fn lemma_due_split(m: Multiset<TimeoutHolder>, s: Set<Handle>, h: Handle)
    requires
        !s.contains(h),
    ensures
        due(m, s.insert(h)) == due(m, s) + due(m, set![h]),
{
    broadcast use vstd::multiset::group_multiset_axioms;

    let both = m.filter(for_one_of(s.insert(h)));
    let left = m.filter(for_one_of(s));
    let right = m.filter(for_one_of(set![h]));
    assert(both =~= left.add(right));
}

/// Counting for fewer events doesn't count more.
proof fn lemma_due_subset(m: Multiset<TimeoutHolder>, a: Set<Handle>, b: Set<Handle>)
    requires
        a.subset_of(b),
    ensures
        due(m, a) <= due(m, b),
{
    broadcast use vstd::multiset::group_multiset_axioms;

    let small = m.filter(for_one_of(a));
    let rest = m.filter(for_one_of(b.difference(a)));
    let big = m.filter(for_one_of(b));
    assert(big =~= small.add(rest));
}

/// Counting for one more event.
pub proof fn lemma_pending_split<D>(
    m: Multiset<TimeoutHolder>,
    q: Seq<Task<D>>,
    s: Set<Handle>,
    h: Handle,
)
    requires
        !s.contains(h),
    ensures
        pending(m, q, s.insert(h)) == pending(m, q, s) + pending(m, q, set![h]),
{
    lemma_due_split(m, s, h);
    lemma_queued_insert(q, s, h);
}

/// Counting for fewer events doesn't count more.
pub proof fn lemma_pending_subset<D>(
    m: Multiset<TimeoutHolder>,
    q: Seq<Task<D>>,
    a: Set<Handle>,
    b: Set<Handle>,
)
    requires
        a.subset_of(b),
    ensures
        pending(m, q, a) <= pending(m, q, b),
{
    lemma_due_subset(m, a, b);
    lemma_queued_subset(q, a, b);
}

} // verus!
