//! What holds of the parts the loop is built of.
//!
//! These are told by what the operations get and give back.
use vstd::prelude::*;

use std::any::TypeId;

use crate::background::{all_answers, all_steps, BackgroundJob, Channel, IterStep, SendOutcome};
use crate::error::Error;
use crate::event_loop::lemma_filter_unique;
use crate::handle::{BackgroundId, Handle, IoId};
use crate::idle::{differs, without, IdleQueue};
use crate::laws::lemma_filter_keeps;
use crate::message::{DeliveryMode, Message, RemoteMessage};
use crate::recycler::Recycler;
use crate::signal::{signal_refusal, Signal, SignalMask};
use crate::signal_dispatch::{connected, SignalDispatch, Wakeup};
use crate::stolen_cell::{StolenCell, StolenData};
use crate::timers::{TimeoutHeap, TimeoutHolder};

verus! {

/// A storage holds an item exactly where there is one in its slots.
pub proof fn law_storage_holds_its_slots<T>(r: Recycler<T>, i: int)
    ensures
        r@.dom().contains(i) <==> 0 <= i < r.data@.len() && r.data@[i] is Some,
        r@.dom().contains(i) ==> r.data@[i] == Some(r@[i]),
{
}

/// A stored item is found at its index, which nothing else was at. The rest stays where it was.
///
/// The slot that got free last is used; only if there's none, the storage grows.
pub proof fn law_stored_is_found<T>(r: &mut Recycler<T>, item: T, idx: usize, other: int)
    requires
        r.wf(),
        call_ensures(Recycler::<T>::store, (r, item), idx),
    ensures
        final(r).wf(),
        final(r)@.dom().contains(idx as int),
        final(r)@[idx as int] == item,
        !old(r)@.dom().contains(idx as int),
        other != idx ==> (final(r)@.dom().contains(other) <==> old(r)@.dom().contains(other)),
        other != idx && old(r)@.dom().contains(other) ==> final(r)@[other] == old(r)@[other],
        old(r).free@.len() > 0 ==> idx == old(r).free@.last() && final(r).data@.len() == old(r).data@.len() && final(r).free@.len() == old(r).free@.len() - 1,
        old(r).free@.len() == 0 ==> idx == old(r).data@.len() && final(r).data@.len() == old(r).data@.len() + 1 && final(r).free@.len() == 0,
{
}

/// What was stored at the index is given back when it is released, and nothing is there any more.
/// The rest stays where it was and the slot is the next one to be used.
pub proof fn law_released_is_gone<T>(r: &mut Recycler<T>, idx: usize, item: T, other: int)
    requires
        r.wf(),
        r@.dom().contains(idx as int),
        call_ensures(Recycler::<T>::release, (r, idx), item),
    ensures
        final(r).wf(),
        item == old(r)@[idx as int],
        !final(r)@.dom().contains(idx as int),
        other != idx ==> (final(r)@.dom().contains(other) <==> old(r)@.dom().contains(other)),
        other != idx && old(r)@.dom().contains(other) ==> final(r)@[other] == old(r)@[other],
        final(r).data@.len() == old(r).data@.len(),
        final(r).free@.len() == old(r).free@.len() + 1,
        final(r).free@.last() == idx,
        final(r).free@.drop_last() == old(r).free@,
{
    assert(final(r).free@.drop_last() =~= old(r).free@);
}

/// Storing into and releasing from the same place undo each other.
pub proof fn law_release_after_store<T>(
    a: &mut Recycler<T>,
    b: &mut Recycler<T>,
    item: T,
    idx: usize,
    out: T,
)
    requires
        a.wf(),
        call_ensures(Recycler::<T>::store, (a, item), idx),
        *b == *final(a),
        call_ensures(Recycler::<T>::release, (b, idx), out),
    ensures
        out == item,
        final(b)@ =~= old(a)@,
{
}

/// The index offered is the one the next item gets.
pub proof fn law_peeked_index_is_used<T>(
    r: &mut Recycler<T>,
    item: T,
    peeked: usize,
    idx: usize,
)
    requires
        r.wf(),
        call_ensures(Recycler::<T>::peek_index, (&*r,), peeked),
        call_ensures(Recycler::<T>::store, (r, item), idx),
    ensures
        peeked == idx,
{
}

/// The questions to a storage are answered by what is in its slots.
pub proof fn law_storage_answers<T>(
    r: &Recycler<T>,
    idx: usize,
    valid: bool,
    len: usize,
    empty: bool,
)
    requires
        r.wf(),
        call_ensures(Recycler::<T>::valid, (r, idx), valid),
        call_ensures(Recycler::<T>::len, (r,), len),
        call_ensures(Recycler::<T>::is_empty, (r,), empty),
    ensures
        valid <==> idx < r.data@.len() && r.data@[idx as int] is Some,
        len == r.data@.len() - r.free@.len(),
        len == r@.dom().len(),
        empty <==> len == 0,
        empty <==> forall|i: int|
            0 <= i < r.data@.len() ==> (#[trigger] r.data@[i]) is None,
{
    r.lemma_len();
    if r@.dom().len() == 0 {
        assert forall|i: int| 0 <= i < r.data@.len() implies (#[trigger] r.data@[i]) is None by {
            if r.data@[i] is Some {
                assert(r@.dom().contains(i));
            }
        }
    }
    if forall|i: int| 0 <= i < r.data@.len() ==> (#[trigger] r.data@[i]) is None {
        assert(r@ =~= Map::<int, T>::empty());
    }
}

/// What is written through the access to an item is there afterwards. The rest isn't touched.
pub proof fn law_written_is_read<T>(r: &mut Recycler<T>, idx: usize, item: &mut T, other: int)
    requires
        r.wf(),
        r@.dom().contains(idx as int),
        call_ensures(Recycler::<T>::index_mut, (r, idx), item),
    ensures
        *old(item) == old(r)@[idx as int],
        final(r)@.dom() =~= old(r)@.dom(),
        final(r)@[idx as int] == *final(item),
        other != idx && old(r)@.dom().contains(other) ==> final(r)@[other] == old(r)@[other],
        final(r).free@ == old(r).free@,
{
}

/// The value comes out of a cell as it went in. The cell is locked just as long as it is out.
pub proof fn law_stolen_is_returned<T>(
    value: T,
    a: &mut StolenCell<T>,
    b: &mut StolenCell<T>,
    c: StolenCell<T>,
    data: StolenData<T>,
    fresh: bool,
    locked: bool,
    back: T,
)
    requires
        call_ensures(StolenCell::<T>::new, (value,), *a),
        call_ensures(StolenCell::<T>::stolen, (&*a,), fresh),
        call_ensures(StolenCell::<T>::steal, (a,), data),
        *b == *final(a),
        call_ensures(StolenCell::<T>::stolen, (&*b,), locked),
        call_ensures(StolenCell::<T>::unsteal, (b, data), ()),
        c == *final(b),
        call_ensures(StolenCell::<T>::into_inner, (c,), back),
    ensures
        !fresh,
        locked,
        data@ == value,
        back == value,
        c@ is Some,
{
}

/// What is written to the value while it is out of its cell is there when it comes back.
pub proof fn law_written_while_stolen<T>(
    cell: &mut StolenCell<T>,
    data: &mut StolenData<T>,
    access: &mut T,
)
    requires
        call_ensures(StolenData::<T>::as_mut, (data,), access),
        call_ensures(StolenCell::<T>::unsteal, (cell, *final(data)), ()),
    ensures
        *old(access) == old(data)@,
        final(cell)@ == Some(*final(access)),
{
}

/// Leaving a value out of a sequence: if it is there once, exactly that place is left out.
pub proof fn lemma_without_once<A>(s: Seq<A>, value: A, i: int)
    requires
        s.no_duplicates(),
        0 <= i < s.len(),
        s[i] == value,
    ensures
        without(s, value) == s.take(i) + s.skip(i + 1),
    decreases s.len(),
{
    reveal(Seq::filter);
    let t = s.drop_last();
    if i == s.len() - 1 {
        assert forall|j: int| 0 <= j < t.len() implies #[trigger] t[j] != value by {
            assert(s[j] != s[i]);
        }
        lemma_without_none(t, value);
        assert(s.take(i) + s.skip(i + 1) =~= t);
    } else {
        assert(t[i] == value);
        lemma_without_once(t, value, i);
        assert(s.last() != value) by {
            assert(s[s.len() - 1] != s[i]);
        }
        assert(s.take(i) + s.skip(i + 1) =~= (t.take(i) + t.skip(i + 1)).push(s.last()));
    }
}

/// Leaving a value out of a sequence where it isn't changes nothing.
pub proof fn lemma_without_none<A>(s: Seq<A>, value: A)
    requires
        forall|j: int| 0 <= j < s.len() ==> #[trigger] s[j] != value,
    ensures
        without(s, value) == s,
    decreases s.len(),
{
    reveal(Seq::filter);
    if s.len() > 0 {
        let t = s.drop_last();
        assert forall|j: int| 0 <= j < t.len() implies #[trigger] t[j] != value by {
            assert(t[j] == s[j]);
        }
        lemma_without_none(t, value);
        assert(s[s.len() - 1] != value);
        assert(t.push(s.last()) =~= s);
    }
}

/// Everything but the value is still there after it is left out.
pub proof fn lemma_without_contains<A>(s: Seq<A>, value: A, x: A)
    ensures
        without(s, value).contains(x) <==> s.contains(x) && x != value,
{
    let f = differs(value);
    lemma_filter_unique(s, f);
    if without(s, value).contains(x) {
        let j = choose|j: int| 0 <= j < s.filter(f).len() && s.filter(f)[j] == x;
        assert(f(s.filter(f)[j]));
        assert(s.contains(s.filter(f)[j]));
    }
    if s.contains(x) && x != value {
        let j = choose|j: int| 0 <= j < s.len() && s[j] == x;
        assert(f(s[j]));
        lemma_filter_keeps(s, f, j);
    }
}

/// The event that joins the queue is the last one there. If it was there before, only its old place
/// is left out.
pub proof fn law_idle_joins_at_the_end(q: &mut IdleQueue, handle: Handle)
    requires
        q@.no_duplicates(),
        call_ensures(IdleQueue::push, (q, handle), ()),
    ensures
        !old(q)@.contains(handle) ==> final(q)@ == old(q)@.push(handle),
        forall|i: int|
            0 <= i < old(q)@.len() && #[trigger] old(q)@[i] == handle ==> final(q)@ == (old(q)@.take(i) + old(q)@.skip(i + 1)).push(handle),
{
    if !q@.contains(handle) {
        lemma_without_none(q@, handle);
    }
    assert forall|i: int| 0 <= i < q@.len() && #[trigger] q@[i] == handle implies final(q)@ == (
    q@.take(i) + q@.skip(i + 1)).push(handle) by {
        lemma_without_once(q@, handle, i);
    }
}

/// The event that leaves the queue isn't there any more. The rest keep their places.
pub proof fn law_idle_leaves(q: &mut IdleQueue, handle: Handle)
    requires
        q@.no_duplicates(),
        call_ensures(IdleQueue::remove, (q, handle), ()),
    ensures
        !old(q)@.contains(handle) ==> final(q)@ == old(q)@,
        forall|i: int|
            0 <= i < old(q)@.len() && #[trigger] old(q)@[i] == handle ==> final(q)@ == old(q)@.take(i) + old(q)@.skip(i + 1),
{
    if !q@.contains(handle) {
        lemma_without_none(q@, handle);
    }
    assert forall|i: int| 0 <= i < q@.len() && #[trigger] q@[i] == handle implies final(q)@
        == q@.take(i) + q@.skip(i + 1) by {
        lemma_without_once(q@, handle, i);
    }
}

/// The queue of idle events is first in, first out.
pub proof fn law_idle_first_in_first_out(q: &mut IdleQueue, r: Option<Handle>, empty: bool)
    requires
        call_ensures(IdleQueue::is_empty, (&*q,), empty),
        call_ensures(IdleQueue::pop_front, (q,), r),
    ensures
        empty <==> old(q)@.len() == 0,
        empty ==> r is None && final(q)@ == old(q)@,
        !empty ==> r == Some(old(q)@[0]) && final(q)@ == old(q)@.skip(1),
{
    if q@.len() > 0 {
        assert(q@.drop_first() =~= q@.skip(1));
    }
}

/// A new queue and a new heap are empty.
pub proof fn law_new_are_empty(q: IdleQueue, heap: TimeoutHeap, mask: SignalMask)
    requires
        call_ensures(IdleQueue::new, (), q),
        call_ensures(TimeoutHeap::new, (), heap),
        call_ensures(SignalMask::empty, (), mask),
    ensures
        q@.len() == 0,
        heap@.len() == 0,
        forall|n: i32| !#[trigger] mask@.contains(n),
{
}

/// The timeout put into a heap is there once more than before, the others as often as before.
pub proof fn law_pushed_is_in_heap(heap: &mut TimeoutHeap, t: TimeoutHolder, u: TimeoutHolder)
    requires
        call_ensures(TimeoutHeap::push, (heap, t), ()),
    ensures
        final(heap)@.count(u) == old(heap)@.count(u) + (if u == t {
            1nat
        } else {
            0nat
        }),
        final(heap)@.len() == old(heap)@.len() + 1,
{
    broadcast use vstd::multiset::group_multiset_axioms;

}

/// The timeouts come out of a heap by their time: nothing left there is sooner. Exactly that one is
/// taken out, and it is the one that could be seen before.
pub proof fn law_soonest_is_popped(
    heap: &mut TimeoutHeap,
    peeked: Option<TimeoutHolder>,
    popped: Option<TimeoutHolder>,
    u: TimeoutHolder,
)
    requires
        call_ensures(TimeoutHeap::peek, (&*heap,), peeked),
        call_ensures(TimeoutHeap::pop, (heap,), popped),
    ensures
        peeked == popped,
        popped is None <==> old(heap)@.len() == 0,
        popped is None ==> final(heap)@ == old(heap)@,
        popped is Some ==> old(heap)@.count(popped->0) > 0,
        popped is Some && old(heap)@.count(u) > 0 ==> popped->0.when <= u.when,
        popped is Some ==> final(heap)@.count(u) == old(heap)@.count(u) - (if u == popped->0 {
            1int
        } else {
            0int
        }),
{
    broadcast use vstd::multiset::group_multiset_axioms;

    if popped is Some && heap@.count(u) > 0 {
        assert(heap@.contains(u));
    }
}

/// The questions to a heap are answered by the timeouts in it.
pub proof fn law_heap_answers(
    heap: &TimeoutHeap,
    len: usize,
    handle: Handle,
    items: Vec<TimeoutHolder>,
    t: TimeoutHolder,
)
    requires
        call_ensures(TimeoutHeap::len, (heap,), len),
        call_ensures(TimeoutHeap::into_vec, (*heap,), items),
    ensures
        len == heap@.len(),
        items@.to_multiset().count(t) == heap@.count(t),
        call_ensures(TimeoutHeap::refers_to, (heap, handle), true) ==> exists|u: TimeoutHolder|
            #[trigger]
            heap@.count(u) > 0 && u.recipient == handle,
{
    if call_ensures(TimeoutHeap::refers_to, (heap, handle), true) {
        let u = choose|u: TimeoutHolder| #[trigger] heap@.contains(u) && u.recipient == handle;
        assert(heap@.count(u) > 0);
    }
}

/// A mask contains exactly what was added and not removed since.
pub proof fn law_mask_remembers(
    mask: &mut SignalMask,
    other: &mut SignalMask,
    signal: Signal,
    n: i32,
    there: bool,
)
    requires
        call_ensures(SignalMask::add, (mask, signal), ()),
        call_ensures(SignalMask::remove, (other, signal), ()),
        call_ensures(SignalMask::contains, (&*mask, signal), there),
    ensures
        there <==> old(mask)@.contains(signal.num()),
        final(mask)@.contains(n) <==> old(mask)@.contains(n) || n == signal.num(),
        final(other)@.contains(n) <==> old(other)@.contains(n) && n != signal.num(),
{
}

/// A signal is made of a number exactly if that is from one to thirty-one, and has that number.
pub proof fn law_signal_keeps_its_number(
    number: i32,
    r: Result<Signal, Error>,
    signal: Signal,
    back: i32,
)
    requires
        call_ensures(Signal::from_c_int, (number,), r),
        call_ensures(Signal::number, (&signal,), back),
    ensures
        r is Ok <==> 1 <= number <= 31,
        r is Ok ==> r->Ok_0.num() == number,
        r is Err ==> r->Err_0 == Error::Nix(signal_refusal(number)),
        back == signal.num(),
        1 <= back <= 31,
        r == Ok::<Signal, Error>(signal) ==> back == number,
{
}

/// The token of an IO is two more than its slot, so it is never one of those of the loop.
pub proof fn law_tokens(id: IoId, idx: usize, token: usize)
    requires
        call_ensures(IoId::idx, (&id,), idx),
        call_ensures(IoId::token, (&id,), token),
    ensures
        token == idx + 2,
        idx == id.index(),
{
}

/// Extracting data gives what the conversion of the payload gives: the result of a background job
/// comes out as it is, other data in `Ok`, and anything the conversion doesn't know is refused.
pub proof fn law_extracted<D, T, P: FnOnce(D) -> Option<T>, B: FnOnce(D) -> Option<
    Result<T, Error>,
>>(m: Message<D>, plain: P, background: B, r: Result<T, Error>)
    requires
        call_ensures(Message::<D>::get::<T, P, B>, (m, plain, background), r),
    ensures
        m.mode is Background ==> {
            ||| background.ensures((m.data,), Some(r))
            ||| background.ensures((m.data,), None) && r == Err::<T, Error>(Error::MsgType)
        },
        !(m.mode is Background) ==> {
            ||| r is Ok && plain.ensures((m.data,), Some(r->Ok_0))
            ||| plain.ensures((m.data,), None) && r == Err::<T, Error>(Error::MsgType)
        },
{
}

/// What goes through a channel is the data for the event at its other end, as sent remotely.
pub proof fn law_channel_carries<D>(
    channel: Channel,
    data: D,
    real_type: TypeId,
    m: RemoteMessage<D>,
)
    requires
        call_ensures(Channel::send::<D>, (&channel, data, real_type), m),
    ensures
        m.data == data,
        m.real_type == real_type,
        m.mode == DeliveryMode::Remote,
        m.recipient == channel.handle,
        m.message().data == data,
        m.message().real_type == real_type,
        m.message().mode == DeliveryMode::Remote,
{
}

/// Sending succeeds exactly if the message got to the loop. The errors tell what went wrong.
pub proof fn law_sending_fails_for_a_reason(outcome: SendOutcome, r: Result<(), Error>)
    requires
        call_ensures(Channel::sent, (outcome,), r),
    ensures
        r is Ok <==> outcome is Sent,
        outcome is Disconnected ==> r == Err::<(), Error>(Error::LoopGone),
        outcome is Io ==> r == Err::<(), Error>(Error::Io(outcome->Io_0)),
{
}

/// The requestor of a job gets one message: with the result if there's one, or that the job went
/// away without any.
pub proof fn law_job_tells_once<R>(
    requestor: Handle,
    id: BackgroundId,
    job: &mut BackgroundJob,
    result: Result<R, Error>,
    real_type: TypeId,
    before: Option<RemoteMessage<Result<R, Error>>>,
    m: RemoteMessage<Result<R, Error>>,
    after: Option<RemoteMessage<Result<R, Error>>>,
)
    requires
        call_ensures(BackgroundJob::new, (requestor, id), *job),
        call_ensures(BackgroundJob::abandoned::<R>, (&*job, real_type), before),
        call_ensures(BackgroundJob::background::<R>, (job, result, real_type), m),
        call_ensures(BackgroundJob::abandoned::<R>, (&*final(job), real_type), after),
    ensures
        after is None,
        m.data == result,
        m.recipient == requestor,
        m.real_type == real_type,
        m.mode == DeliveryMode::Background(id),
        before is Some,
        before->0.data == Err::<R, Error>(Error::BackgroundPanicked),
        before->0.recipient == requestor,
        before->0.real_type == real_type,
        before->0.mode == DeliveryMode::Background(id),
        final(job).requestor == requestor,
        final(job).id == id,
{
}

/// A job with more results tells about each answer of its iterator: about an item with the item, and
/// it goes on then; about the end with the error for it, and about a failure with the failure.
pub proof fn law_job_tells_each_answer<R>(
    job: BackgroundJob,
    answer: Result<Option<R>, Error>,
    step: IterStep<R>,
    more: bool,
    real_type: TypeId,
    m: RemoteMessage<Result<R, Error>>,
)
    requires
        call_ensures(IterStep::<R>::after, (answer,), (step, more)),
        call_ensures(BackgroundJob::background_iter::<R>, (&job, step, real_type), m),
    ensures
        more <==> answer is Ok && answer->Ok_0 is Some,
        more ==> m.data == Ok::<R, Error>(answer->Ok_0->0),
        answer == Ok::<Option<R>, Error>(None) ==> m.data == Err::<R, Error>(Error::IterEnd),
        answer is Err ==> m.data == Err::<R, Error>(answer->Err_0),
        m.recipient == job.requestor,
        m.real_type == real_type,
        m.mode == DeliveryMode::Background(job.id),
{
}

/// An iterator answers with its results, in order, and then with the end. The steps of the job are
/// the same, one for each answer.
pub proof fn law_answers_are_the_results<R>(results: Seq<R>, i: int)
    requires
        0 <= i < results.len(),
    ensures
        all_answers(results).len() == results.len() + 1,
        all_answers(results)[i] == Ok::<Option<R>, Error>(Some(results[i])),
        all_answers(results).last() == Ok::<Option<R>, Error>(None),
        all_steps(results).len() == results.len() + 1,
        all_steps(results)[i] == IterStep::Item(results[i]),
        all_steps(results).last() == IterStep::<R>::End,
{
}

/// The first receiver of a signal asks for its handler to be set up, nobody after it does. The new
/// receiver is added behind those already there, and those of other signals aren't touched.
pub proof fn law_registered_is_added<N>(
    d: &mut SignalDispatch<N>,
    signal: Signal,
    notifier: N,
    needs_setup: bool,
    other: int,
)
    requires
        d.wf(),
        1 <= signal.num() <= 31,
        call_ensures(SignalDispatch::<N>::register, (d, signal, notifier), needs_setup),
        0 <= other < 32,
    ensures
        final(d).wf(),
        needs_setup <==> !old(d).setup@[signal.num() as int],
        final(d).setup@[signal.num() as int],
        other != signal.num() ==> final(d).setup@[other] == old(d).setup@[other],
        other != signal.num() ==> final(d).registered@[other] == old(d).registered@[other],
        final(d).registered@[signal.num() as int]@.len() == old(d).registered@[signal.num() as int]@.len() + 1,
        final(d).registered@[signal.num() as int]@.last() == notifier,
        final(d).registered@[signal.num() as int]@.drop_last() == old(d).registered@[signal.num() as int]@,
{
    assert(final(d).registered@[signal.num() as int]@.drop_last() =~= old(d).registered@[signal.num() as int]@);
}

/// Nobody is registered for any signal at the beginning and no handler is set up.
pub proof fn law_nobody_at_first<N>(d: SignalDispatch<N>, i: int)
    requires
        call_ensures(SignalDispatch::<N>::new, (), d),
        0 <= i < 32,
    ensures
        d.registered@.len() == 32,
        d.setup@.len() == 32,
        d.registered@[i]@.len() == 0,
        !d.setup@[i],
{
}

/// Every receiver of the signal is marked with it and only then woken up, no matter how waking up of
/// the others ends. Those with somebody at the other end stay registered, in the same order, the
/// rest are dropped. The receivers of other signals are left alone.
pub proof fn law_every_receiver_is_marked_and_woken<
    N,
    M: Fn(N, usize) -> N,
    W: Fn(N) -> (N, Wakeup),
>(d: &mut SignalDispatch<N>, signal: i32, mark: M, wake: W, other: int)
    requires
        d.wf(),
        0 <= signal < 32,
        0 <= other < 32,
        call_ensures(SignalDispatch::<N>::dispatch::<M, W>, (d, signal, mark, wake), ()),
    ensures
        final(d).wf(),
        final(d).setup@ == old(d).setup@,
        other != signal ==> final(d).registered@[other] == old(d).registered@[other],
        exists|marked: Seq<N>, woken: Seq<(N, Wakeup)>, at: Seq<int>|
            #![trigger marked.len(), woken.len(), at.len()]
            {
                let before = old(d).registered@[signal as int]@;
                let after = final(d).registered@[signal as int]@;
                &&& marked.len() == before.len()
                &&& woken.len() == before.len()
                &&& forall|i: int|
                    0 <= i < before.len() ==> mark.ensures(
                        (before[i], signal as usize),
                        #[trigger] marked[i],
                    )
                &&& forall|i: int|
                    0 <= i < before.len() ==> wake.ensures((marked[i],), #[trigger] woken[i])
                &&& at.len() == after.len()
                &&& forall|j: int|
                    0 <= j < at.len() ==> 0 <= #[trigger] at[j] < before.len() && woken[at[j]].1
                        != Wakeup::Disconnected && woken[at[j]].0 == after[j]
                &&& forall|i: int, j: int|
                    0 <= i < j < at.len() ==> #[trigger] at[i] < #[trigger] at[j]
                &&& forall|i: int|
                    0 <= i < before.len() && (#[trigger] woken[i]).1 != Wakeup::Disconnected
                        ==> at.contains(i)
            },
{
    let before = d.registered@[signal as int]@;
    let (marked, woken) = choose|marked: Seq<N>, woken: Seq<(N, Wakeup)>|
        {
            &&& #[trigger] crate::signal_dispatch::notified(
                before,
                signal as usize,
                mark,
                wake,
                marked,
                woken,
            )
            &&& final(d).registered@[signal as int]@ == crate::signal_dispatch::kept(woken)
        };
    let at = lemma_filter_positions(woken, connected::<N>());
    assert forall|j: int| 0 <= j < at.len() implies 0 <= #[trigger] at[j] < before.len()
        && woken[at[j]].1 != Wakeup::Disconnected && woken[at[j]].0 == final(d).registered@[signal as int]@[j] by {
        assert(connected::<N>()(woken[at[j]]));
    }
    assert forall|i: int|
        0 <= i < before.len() && (#[trigger] woken[i]).1 != Wakeup::Disconnected implies at.contains(
        i,
    ) by {
        assert(connected::<N>()(woken[i]));
    }
    assert(marked.len() == before.len() && woken.len() == before.len() && at.len() == final(d).registered@[signal as int]@.len());
}

/// Where the items that fit come from.
pub proof fn lemma_filter_positions<A>(s: Seq<A>, f: spec_fn(A) -> bool) -> (at: Seq<int>)
    ensures
        at.len() == s.filter(f).len(),
        forall|j: int|
            0 <= j < at.len() ==> 0 <= #[trigger] at[j] < s.len() && f(s[at[j]]) && s[at[j]]
                == s.filter(f)[j],
        forall|i: int, j: int| 0 <= i < j < at.len() ==> #[trigger] at[i] < #[trigger] at[j],
        forall|i: int| 0 <= i < s.len() && f(#[trigger] s[i]) ==> at.contains(i),
    decreases s.len(),
{
    reveal(Seq::filter);
    if s.len() == 0 {
        Seq::empty()
    } else {
        let t = s.drop_last();
        let rest = lemma_filter_positions(t, f);
        if f(s.last()) {
            let at = rest.push(s.len() - 1);
            assert forall|i: int| 0 <= i < s.len() && f(#[trigger] s[i]) implies at.contains(i) by {
                if i < s.len() - 1 {
                    assert(t[i] == s[i]);
                    let j = choose|j: int| 0 <= j < rest.len() && rest[j] == i;
                    assert(at[j] == i);
                } else {
                    assert(at[rest.len() as int] == i);
                }
            }
            assert forall|j: int| 0 <= j < at.len() implies 0 <= #[trigger] at[j] < s.len() && f(
                s[at[j]],
            ) && s[at[j]] == s.filter(f)[j] by {
                if j < rest.len() {
                    assert(at[j] == rest[j]);
                    assert(t[rest[j]] == s[rest[j]]);
                }
            }
            assert forall|i: int, j: int| 0 <= i < j < at.len() implies #[trigger] at[i]
                < #[trigger] at[j] by {
                assert(at[i] == rest[i]);
                if j < rest.len() {
                    assert(at[j] == rest[j]);
                }
            }
            at
        } else {
            assert forall|i: int| 0 <= i < s.len() && f(#[trigger] s[i]) implies rest.contains(
                i,
            ) by {
                assert(t[i] == s[i]);
            }
            assert forall|j: int| 0 <= j < rest.len() implies 0 <= #[trigger] rest[j] < s.len()
                && f(s[rest[j]]) && s[rest[j]] == s.filter(f)[j] by {
                assert(t[rest[j]] == s[rest[j]]);
            }
            rest
        }
    }
}

} // verus!
