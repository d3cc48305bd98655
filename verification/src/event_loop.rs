//! The state of the event loop.
use vstd::multiset::Multiset;
use vstd::prelude::*;
use vstd::std_specs::iter::IteratorSpec;

use std::collections::{HashMap, HashSet, VecDeque};

use crate::error::Error;
use crate::handle::{Handle, TimeoutId};
use crate::idle::{differs, without, IdleQueue};
use crate::recycler::Recycler;
use crate::signal::{Signal, SignalMask, NSIG};
use crate::stolen_cell::{StolenCell, StolenData};
use crate::task::{
    lemma_due_empty, lemma_due_of, lemma_pending_split, lemma_queued_some, lemma_queued_unrelated,
    lemma_stored_empty, pending, waiting, Callback, Task, TaskParam,
};
use crate::timers::{TimeoutHeap, TimeoutHolder};

verus! {

broadcast use vstd::std_specs::hash::group_hash_axioms;

/// An event living in the loop and what the loop knows about it.
pub struct EvHolder<Ev, Io> {
    /// The event itself. It is stolen for the time of its callback.
    pub event: StolenCell<Ev>,
    pub generation: u64,
    /// How many timeouts does it have?
    pub timeouts: usize,
    /// The IOs belonging to this event
    pub ios: HashMap<usize, Io>,
    /// The types of messages the event is willing to receive, each once.
    pub expected_messages: Vec<std::any::TypeId>,
    /// The children we want to be informed about
    pub children: HashSet<i32>,
}

/// The event loop itself.
///
/// This structure is the core of the library. It holds the events and everything they registered
/// for, decides what shall be delivered to whom, keeps the queue of it and runs the callbacks.
/// Polling for IO and reading of channels and signals happens outside; it is described to the loop
/// afterwards.
///
/// The instants are in nanoseconds since an arbitrary but fixed moment.
pub struct Loop<Context, Ev, D, Io> {
    /// Is the innermost run supposed to go on?
    pub active: bool,
    /// The global storage accessible from all the events.
    pub context: Context,
    pub events: Recycler<EvHolder<Ev, Io>>,
    /// We try to detect referring to an event with Handle from event that had the same index as us
    /// and the index got reused by adding generation to the event. It is very unlikely we would
    /// hit the very same index and go through all 2^64 iterations to cause hitting a collision.
    pub generation: u64,
    /// Did the generation go through all of its values already?
    pub wrapped: bool,
    /// Preparsed events we received from the outside, ready to be dispatched one by one
    pub scheduled: VecDeque<Task<D>>,
    /// The timeouts we want to fire some time. We don't prune the ones from events that died,
    /// but we ignore them when they fire.
    pub timeouts: TimeoutHeap,
    /// How many were dropped because of dying event?
    pub timeouts_dead: usize,
    /// How many did fire?
    pub timeouts_fired: usize,
    /// How many were created?
    pub timeouts_inserted: usize,
    pub timeout_generation: u64,
    /// Did the ids of timeouts go through all of their values already?
    pub timeout_wrapped: bool,
    /// Cached from the last tick of the loop
    pub now: i128,
    /// Ownership of the IOs
    pub ios: Recycler<Handle>,
    /// The IO ids no longer in use, but held until the next tasks are gathered.
    pub ios_released: HashSet<usize>,
    pub want_idle: IdleQueue,
    /// The number of threads for the background jobs, if they were started.
    pub pool_threads: Option<usize>,
    pub background_generation: u64,
    /// The signals handled by the loop.
    pub signal_mask: SignalMask,
    /// Which events want which signals, each pair once.
    pub signal_recipients: Vec<(i32, Handle)>,
    /// Which events wait for which child processes.
    pub children: HashMap<i32, Handle>,
    /// The signal that tells about the children.
    pub sigchld: Signal,
}

/// The generations of the events, by their slots.
pub open spec fn gens<Ev, Io>(events: Map<int, EvHolder<Ev, Io>>) -> Map<int, u64> {
    events.map_values(|h: EvHolder<Ev, Io>| h.generation)
}

/// How many timeouts the events think they have, by their slots.
pub open spec fn counts<Ev, Io>(events: Map<int, EvHolder<Ev, Io>>) -> Map<int, usize> {
    events.map_values(|h: EvHolder<Ev, Io>| h.timeouts)
}

/// The IOs of the events, by their slots.
pub open spec fn io_keys<Ev, Io>(events: Map<int, EvHolder<Ev, Io>>) -> Map<int, Set<usize>> {
    events.map_values(|h: EvHolder<Ev, Io>| h.ios@.dom())
}

/// The children the events wait for, by their slots.
pub open spec fn kids<Ev, Io>(events: Map<int, EvHolder<Ev, Io>>) -> Map<int, Set<i32>> {
    events.map_values(|h: EvHolder<Ev, Io>| h.children@)
}

/// The handle is of an event with the given slot and generation.
pub open spec fn alive_in(g: Map<int, u64>, h: Handle) -> bool {
    g.dom().contains(h.id as int) && g[h.id as int] == h.generation
}

/// The handles of the events.
pub open spec fn live(g: Map<int, u64>) -> Set<Handle> {
    Set::new(|h: Handle| alive_in(g, h))
}

/// Every event is in a cell of its own.
pub open spec fn cells_wf<Ev, Io>(events: Map<int, EvHolder<Ev, Io>>) -> bool {
    forall|i: int| #[trigger]
        events.dom().contains(i) ==> events[i].event.owner() == (Handle {
            id: i as usize,
            generation: events[i].generation,
        })
}

/// Only living events wait for the loop to be idle, each at most once.
#[verifier::opaque]
pub open spec fn idle_wf(g: Map<int, u64>, idle: Seq<Handle>) -> bool {
    &&& idle.no_duplicates()
    &&& forall|j: int| 0 <= j < idle.len() ==> alive_in(g, #[trigger] idle[j])
}

/// Only living events wait for signals, each at most once for the same signal.
#[verifier::opaque]
pub open spec fn signals_wf(g: Map<int, u64>, recipients: Seq<(i32, Handle)>) -> bool {
    &&& recipients.no_duplicates()
    &&& forall|j: int| 0 <= j < recipients.len() ==> alive_in(g, (#[trigger] recipients[j]).1)
}

/// A child is tracked by exactly the event that knows about it.
#[verifier::opaque]
pub open spec fn children_wf(
    g: Map<int, u64>,
    kids: Map<int, Set<i32>>,
    children: Map<i32, Handle>,
) -> bool {
    &&& forall|pid: i32| #[trigger]
        children.dom().contains(pid) ==> alive_in(g, children[pid])
            && kids[children[pid].id as int].contains(pid)
    &&& forall|h: Handle, pid: i32|
        alive_in(g, h) && #[trigger] kids[h.id as int].contains(pid) ==> children.dom().contains(pid)
            && children[pid] == h
}

/// The IO belongs to the living event that is written down as its owner.
pub open spec fn io_owned(
    g: Map<int, u64>,
    keys: Map<int, Set<usize>>,
    ios: Map<int, Handle>,
    k: usize,
) -> bool {
    alive_in(g, ios[k as int]) && keys[ios[k as int].id as int].contains(k)
}

/// An IO id in use either belongs to exactly the event that is its owner, or it is held for now.
#[verifier::opaque]
pub open spec fn ios_wf(
    g: Map<int, u64>,
    keys: Map<int, Set<usize>>,
    ios: Map<int, Handle>,
    released: Set<usize>,
) -> bool {
    &&& forall|k: usize|
        ios.dom().contains(k as int) ==> ((#[trigger] released.contains(k)) <==> !io_owned(
            g,
            keys,
            ios,
            k,
        ))
    &&& forall|h: Handle, k: usize|
        alive_in(g, h) && #[trigger] keys[h.id as int].contains(k) ==> ios.dom().contains(k as int)
            && ios[k as int] == h
    &&& forall|k: usize| #[trigger] released.contains(k) ==> ios.dom().contains(k as int)
}

/// The bookkeeping of timeouts.
///
/// Every living event knows how many of its timeouts wait. What was inserted either fired, or died
/// with its event, or waits for a living event. The timeouts of dead events that are still stored
/// were counted as dead.
#[verifier::opaque]
pub open spec fn timers_wf<D>(
    g: Map<int, u64>,
    counts: Map<int, usize>,
    m: Multiset<TimeoutHolder>,
    q: Seq<Task<D>>,
    inserted: usize,
    fired: usize,
    dead: usize,
) -> bool {
    &&& forall|h: Handle| #[trigger]
        alive_in(g, h) ==> counts[h.id as int] == pending(m, q, set![h])
    &&& inserted == fired + dead + pending(m, q, live(g))
    &&& pending(m, q, Set::<Handle>::full()) <= dead + pending(m, q, live(g))
}

/// Until the generations wrap around, no event is of a generation to come and no timeout waits for
/// such one.
#[verifier::opaque]
pub open spec fn fresh_wf<D>(
    g: Map<int, u64>,
    generation: u64,
    wrapped: bool,
    m: Multiset<TimeoutHolder>,
    q: Seq<Task<D>>,
) -> bool {
    !wrapped ==> {
        &&& forall|i: int| #[trigger] g.dom().contains(i) ==> g[i] < generation
        &&& forall|h: Handle|
            h.generation >= generation ==> #[trigger] pending(m, q, set![h]) == 0
    }
}

/// Until the ids of timeouts wrap around, no two timeouts that wait have the same id and none has an
/// id to come.
#[verifier::opaque]
pub open spec fn ids_wf<D>(
    generation: u64,
    wrapped: bool,
    m: Multiset<TimeoutHolder>,
    q: Seq<Task<D>>,
) -> bool {
    !wrapped ==> forall|id: TimeoutId| #[trigger]
        waiting(m, q, id) <= (if id.0 < generation {
            1nat
        } else {
            0nat
        })
}

/// The sequence lists the content of the map, each key once.
pub open spec fn lists<V>(s: Seq<(usize, V)>, m: Map<usize, V>) -> bool {
    &&& forall|i: int, j: int| 0 <= i < j < s.len() ==> (#[trigger] s[i]).0 != (#[trigger] s[j]).0
    &&& forall|i: int|
        0 <= i < s.len() ==> m.dom().contains((#[trigger] s[i]).0) && m[s[i].0] == s[i].1
    &&& forall|k: usize| #[trigger]
        m.dom().contains(k) ==> exists|i: int| 0 <= i < s.len() && (#[trigger] s[i]).0 == k
}

/// What became of an event after its callback.
pub enum Outcome<Ev, Io> {
    /// It lives on.
    Kept,
    /// It was killed, as it asked for.
    ///
    /// The IOs that belonged to it (with their ids) shall not be watched any more.
    Killed { event: Ev, ios: Vec<(usize, Io)> },
    /// It was killed because of the error, which is to be passed to the error handler.
    ///
    /// The IOs that belonged to it (with their ids) shall not be watched any more.
    Failed { event: Ev, ios: Vec<(usize, Io)>, error: Error },
}

/// Take the IOs out of the map and write their ids down as no longer in use.
fn release_ios<Io>(ios: HashMap<usize, Io>, released: &mut HashSet<usize>) -> (out: Vec<(usize, Io)>)
    ensures
        lists(out@, ios@),
        final(released)@ == old(released)@.union(ios@.dom()),
{
    let mut keys: Vec<usize> = Vec::new();
    let iter = ios.keys();
    let ghost order = iter.remaining().unref();
    for k in it: iter
        invariant
            it.seq().unref() == order,
            keys@ == order.take(it.index()),
    {
        keys.push(*k);
        assert(order[it.index()] == *k);
    }
    proof {
        assert(keys@ =~= order);
        assert(order.to_set() == ios@.dom());
        assert forall|j: int| 0 <= j < keys@.len() implies ios@.dom().contains(
            #[trigger] keys@[j],
        ) by {
            assert(order.to_set().contains(order[j]));
        }
        assert forall|k: usize| #[trigger] ios@.dom().contains(k) implies keys@.contains(k) by {
            assert(order.to_set().contains(k));
        }
    }
    let ghost all = ios@;
    let mut left = ios;
    let mut out: Vec<(usize, Io)> = Vec::new();
    let mut i: usize = 0;
    while i < keys.len()
        invariant
            i <= keys@.len(),
            keys@.no_duplicates(),
            out@.len() == i,
            forall|j: int| 0 <= j < keys@.len() ==> all.dom().contains(#[trigger] keys@[j]),
            forall|j: int|
                0 <= j < i ==> (#[trigger] out@[j]).0 == keys@[j] && out@[j].1 == all[keys@[j]],
            forall|j: int|
                i <= j < keys@.len() ==> left@.dom().contains(#[trigger] keys@[j])
                    && left@[keys@[j]] == all[keys@[j]],
            forall|k: usize| #[trigger]
                released@.contains(k) <==> old(released)@.contains(k) || exists|j: int|
                    0 <= j < i && #[trigger] keys@[j] == k,
        decreases keys@.len() - i,
    {
        let k: usize = keys[i];
        match left.remove(&k) {
            Some(io) => {
                out.push((k, io));
            },
            None => {
                assert(false);
            },
        }
        let _ = released.insert(k);
        i = i + 1;
    }
    proof {
        assert forall|k: usize| #[trigger] all.dom().contains(k) implies exists|j: int|
            0 <= j < out@.len() && (#[trigger] out@[j]).0 == k by {
            let j = choose|j: int| 0 <= j < keys@.len() && keys@[j] == k;
            assert(out@[j].0 == k);
        }
    }
    out
}

/// The recipient of a signal is some other event.
pub open spec fn other_recipient(handle: Handle) -> spec_fn((i32, Handle)) -> bool {
    |p: (i32, Handle)| p.1 != handle
}

/// The recipients of signals without the given event.
pub open spec fn other_recipients(s: Seq<(i32, Handle)>, handle: Handle) -> Seq<(i32, Handle)> {
    s.filter(other_recipient(handle))
}

/// Forget the event among the recipients of signals.
fn forget_recipient(recipients: &mut Vec<(i32, Handle)>, handle: Handle)
    ensures
        final(recipients)@ == other_recipients(old(recipients)@, handle),
{
    let mut kept: Vec<(i32, Handle)> = Vec::new();
    let mut i: usize = 0;
    proof {
        reveal(Seq::filter);
        assert(kept@ =~= other_recipients(recipients@.take(0), handle));
    }
    while i < recipients.len()
        invariant
            i <= recipients@.len(),
            recipients@ == old(recipients)@,
            kept@ == other_recipients(recipients@.take(i as int), handle),
        decreases recipients@.len() - i,
    {
        let p = recipients[i];
        proof {
            reveal(Seq::filter);
            assert(recipients@.take(i + 1).drop_last() =~= recipients@.take(i as int));
        }
        if p.1 != handle {
            kept.push(p);
        }
        i = i + 1;
    }
    assert(recipients@.take(i as int) =~= recipients@);
    *recipients = kept;
}

/// Forget the children.
fn forget_children(children: &mut HashMap<i32, Handle>, pids: &HashSet<i32>)
    ensures
        final(children)@ == old(children)@.remove_keys(pids@),
{
    let iter = pids.iter();
    let ghost order = iter.remaining().unref();
    for pid in it: iter
        invariant
            it.seq().unref() == order,
            children@ == old(children)@.remove_keys(order.take(it.index()).to_set()),
    {
        let _ = children.remove(pid);
        proof {
            let i = it.index();
            assert(order[i] == *pid);
            lemma_take_set(order, i);
            assert(children@ =~= old(children)@.remove_keys(order.take(i + 1).to_set()));
        }
    }
    assert(order.take(order.len() as int) =~= order);
    assert(order.to_set() == pids@);
}

impl<Context, Ev, D, Io> Loop<Context, Ev, D, Io> {
    /// The handle is of an event living in the loop.
    pub open spec fn alive(&self, h: Handle) -> bool {
        self.events@.dom().contains(h.id as int) && self.events@[h.id as int].generation
            == h.generation
    }

    /// What the loop holds for the event with the handle.
    pub open spec fn holder(&self, h: Handle) -> EvHolder<Ev, Io> {
        self.events@[h.id as int]
    }

    /// The event is alive and in the middle of its callback.
    pub open spec fn busy(&self, h: Handle) -> bool {
        self.alive(h) && self.holder(h).event@ is None
    }

    /// The handle the next inserted event gets.
    pub open spec fn next_handle(&self) -> Handle {
        Handle { id: self.events.next_index() as usize, generation: self.generation }
    }

    /// The state of the loop is consistent.
    pub open spec fn wf(&self) -> bool {
        &&& self.events.wf()
        &&& self.ios.wf()
        &&& cells_wf(self.events@)
        &&& idle_wf(gens(self.events@), self.want_idle@)
        &&& signals_wf(gens(self.events@), self.signal_recipients@)
        &&& children_wf(gens(self.events@), kids(self.events@), self.children@)
        &&& ios_wf(
            gens(self.events@),
            io_keys(self.events@),
            self.ios@,
            self.ios_released@,
        )
        &&& timers_wf(
            gens(self.events@),
            counts(self.events@),
            self.timeouts@,
            self.scheduled@,
            self.timeouts_inserted,
            self.timeouts_fired,
            self.timeouts_dead,
        )
        &&& fresh_wf(
            gens(self.events@),
            self.generation,
            self.wrapped,
            self.timeouts@,
            self.scheduled@,
        )
        &&& ids_wf(
            self.timeout_generation,
            self.timeout_wrapped,
            self.timeouts@,
            self.scheduled@,
        )
    }

    /// No timeout of an event long dead would be taken for one of the next inserted event.
    pub open spec fn handle_fresh(&self) -> bool {
        pending(self.timeouts@, self.scheduled@, set![self.next_handle()]) == 0
    }

    /// The loop is empty, holds no events and nothing is registered in it.
    pub open spec fn blank(&self, context: Context, now: i128) -> bool {
        &&& !self.active
        &&& self.context == context
        &&& self.events@ == Map::<int, EvHolder<Ev, Io>>::empty()
        &&& self.events.free@.len() == 0
        &&& self.events.data@.len() == 0
        &&& self.generation == 0
        &&& !self.wrapped
        &&& self.scheduled@ == Seq::<Task<D>>::empty()
        &&& self.timeouts@ == Multiset::<TimeoutHolder>::empty()
        &&& self.timeouts_dead == 0
        &&& self.timeouts_fired == 0
        &&& self.timeouts_inserted == 0
        &&& self.timeout_generation == 0
        &&& !self.timeout_wrapped
        &&& self.now == now
        &&& self.ios@ == Map::<int, Handle>::empty()
        &&& self.ios.free@.len() == 0
        &&& self.ios.data@.len() == 0
        &&& self.ios_released@ == Set::<usize>::empty()
        &&& self.want_idle@ == Seq::<Handle>::empty()
        &&& self.pool_threads is None
        &&& self.background_generation == 0
        &&& self.signal_mask@ == Set::<i32>::empty()
        &&& self.signal_recipients@ == Seq::<(i32, Handle)>::empty()
        &&& self.children@ == Map::<i32, Handle>::empty()
    }

    /// Create a new Loop.
    ///
    /// The loop is empty, holds no events, but is otherwise ready. The signal that tells about
    /// children is the one of the machine, which is all that can be said about it.
    pub fn new(context: Context, now: i128) -> (l: Self)
        ensures
            l.wf(),
            l.handle_fresh(),
            l.blank(context, now),
            0 < l.sigchld.num() < NSIG,
    {
        Self::with_sigchld(context, now, Signal::sigchld())
    }

    /// Create a new Loop where the given signal tells about children.
    pub fn with_sigchld(context: Context, now: i128, sigchld: Signal) -> (l: Self)
        ensures
            l.wf(),
            l.handle_fresh(),
            l.blank(context, now),
            l.sigchld == sigchld,
    {
        let l = Loop {
            active: false,
            context,
            events: Recycler::new(),
            generation: 0,
            wrapped: false,
            scheduled: VecDeque::new(),
            timeouts: TimeoutHeap::new(),
            timeouts_dead: 0,
            timeouts_fired: 0,
            timeouts_inserted: 0,
            timeout_generation: 0,
            timeout_wrapped: false,
            now,
            ios: Recycler::new(),
            ios_released: HashSet::new(),
            want_idle: IdleQueue::new(),
            pool_threads: None,
            background_generation: 0,
            signal_mask: SignalMask::empty(),
            signal_recipients: Vec::new(),
            children: HashMap::new(),
            sigchld,
        };
        proof {
            reveal(idle_wf);
            reveal(signals_wf);
            reveal(children_wf);
            reveal(ios_wf);
            reveal(timers_wf);
            reveal(fresh_wf);
            assert forall|s: Set<Handle>| #[trigger]
                pending(l.timeouts@, l.scheduled@, s) == 0 by {
                lemma_due_empty(s);
            }
            reveal(ids_wf);
            assert forall|id: TimeoutId| #[trigger]
                waiting(l.timeouts@, l.scheduled@, id) == 0 by {
                lemma_stored_empty(id);
            }
        }
        l
    }

    /// Check if the event is still alive.
    ///
    /// Check if the event still lives and waits for callbacks.
    ///
    /// The result is undefined if you mix handles from foreign loops. However, you do get a result.
    pub fn event_alive(&self, handle: Handle) -> (r: bool)
        ensures
            r == self.alive(handle),
    {
        self.events.valid(handle.id) && self.events[handle.id].generation == handle.generation
    }

    /// Is the event alive and in the middle of its callback?
    pub fn event_busy(&self, handle: Handle) -> (r: bool)
        ensures
            r == self.busy(handle),
    {
        self.event_alive(handle) && self.events[handle.id].event.stolen()
    }

    /// How many active events are there in the loop?
    pub fn event_count(&self) -> (r: usize)
        requires
            self.wf(),
        ensures
            r == self.events@.dom().len(),
            self.events@.dom().finite(),
    {
        self.events.len()
    }

    /// Is the handle the next inserted event gets one no timeout refers to?
    ///
    /// It always is, unless 2^64 events were already inserted into the loop.
    pub fn handle_unused(&self) -> (r: bool)
        requires
            self.wf(),
        ensures
            r == self.handle_fresh(),
            !self.wrapped ==> r,
    {
        if !self.wrapped {
            proof {
                reveal(fresh_wf);
            }
            return true;
        }
        let handle = Handle { id: self.events.peek_index(), generation: self.generation };
        proof {
            lemma_due_of(self.timeouts@, handle);
        }
        if self.timeouts.refers_to(handle) {
            return false;
        }
        let mut i: usize = 0;
        while i < self.scheduled.len()
            invariant
                handle == self.next_handle(),
                i <= self.scheduled@.len(),
                self.wrapped,
                forall|j: int|
                    0 <= j < i ==> !((#[trigger] self.scheduled@[j]).param is Timeout
                        && self.scheduled@[j].recipient == handle),
            decreases self.scheduled@.len() - i,
        {
            let task = &self.scheduled[i];
            if task.recipient == handle {
                match &task.param {
                    TaskParam::Timeout(_) => {
                        proof {
                            lemma_queued_some(self.scheduled@, set![handle], i as int);
                        }
                        return false;
                    },
                    _ => {},
                }
            }
            i = i + 1;
        }
        proof {
            lemma_queued_unrelated(self.scheduled@, set![handle]);
        }
        true
    }

    /// Everything the insertion of an event changes.
    pub open spec fn inserted(pre: Self, post: Self, event: Ev, handle: Handle) -> bool {
        &&& handle == pre.next_handle()
        &&& handle.id == pre.events.next_index()
        &&& !pre.events@.dom().contains(handle.id as int)
        &&& (post == Loop {
            events: post.events,
            generation: post.generation,
            wrapped: post.wrapped,
            ..pre
        })
        &&& post.events@ == pre.events@.insert(handle.id as int, post.holder(handle))
        &&& post.holder(handle).event@ == Some(event)
        &&& post.holder(handle).generation == handle.generation
        &&& post.holder(handle).timeouts == 0
        &&& post.holder(handle).ios@ == Map::<usize, Io>::empty()
        &&& post.holder(handle).expected_messages@.len() == 0
        &&& post.holder(handle).children@ == Set::<i32>::empty()
        &&& post.generation == (if pre.generation == u64::MAX {
            0
        } else {
            pre.generation + 1
        })
        &&& post.wrapped == (pre.wrapped || pre.generation == u64::MAX)
    }

    /// Store an event.
    ///
    /// The event waits for its `init` callback to be called.
    fn event_store(&mut self, event: Ev) -> (handle: Handle)
        requires
            old(self).wf(),
            old(self).handle_fresh(),
        ensures
            final(self).wf(),
            Self::inserted(*old(self), *final(self), event, handle),
    {
        let ghost before = *self;
        // Assign a new generation
        let generation: u64 = self.generation;
        let ghost owner = self.next_handle();
        if generation == u64::MAX {
            self.wrapped = true;
        }
        self.generation = generation.wrapping_add(1);
        // Store the event in the storage
        let idx: usize = self.events.store(
            EvHolder {
                event: StolenCell::owned(event, Ghost(owner)),
                generation,
                timeouts: 0,
                ios: HashMap::new(),
                expected_messages: Vec::new(),
                children: HashSet::new(),
            },
        );
        // Generate a handle for it
        let handle = Handle { id: idx, generation };
        proof {
            let g = gens(before.events@);
            let g2 = gens(self.events@);
            assert(g2 =~= g.insert(idx as int, generation));
            assert(counts(self.events@) =~= counts(before.events@).insert(idx as int, 0));
            assert(io_keys(self.events@) =~= io_keys(before.events@).insert(
                idx as int,
                Set::<usize>::empty(),
            ));
            assert(kids(self.events@) =~= kids(before.events@).insert(
                idx as int,
                Set::<i32>::empty(),
            ));
            assert forall|h: Handle| #[trigger]
                alive_in(g2, h) <==> (alive_in(g, h) || h == handle) by {}
            assert(!alive_in(g, handle));
            assert(live(g2) =~= live(g).insert(handle));
            reveal(idle_wf);
            reveal(signals_wf);
            reveal(children_wf);
            reveal(ios_wf);
            reveal(timers_wf);
            reveal(fresh_wf);
            lemma_pending_split(self.timeouts@, self.scheduled@, live(g), handle);
            assert(children_wf(g2, kids(self.events@), self.children@));
            assert(ios_wf(g2, io_keys(self.events@), self.ios@, self.ios_released@));
        }
        handle
    }

    /// Only the content of the cell with the event changed.
    pub open spec fn event_changed(pre: Self, post: Self, handle: Handle) -> bool {
        &&& (post == Loop { events: post.events, ..pre })
        &&& post.events.free@ == pre.events.free@
        &&& post.events@ == pre.events@.insert(
            handle.id as int,
            EvHolder { event: post.holder(handle).event, ..pre.holder(handle) },
        )
    }

    /// The event was taken out for its callback.
    pub open spec fn taken(pre: Self, post: Self, handle: Handle, event: Ev) -> bool {
        &&& pre.alive(handle)
        &&& pre.holder(handle).event@ == Some(event)
        &&& Self::event_changed(pre, post, handle)
        &&& post.holder(handle).event@ is None
    }

    /// The event was returned after its callback and lives on.
    pub open spec fn returned(pre: Self, post: Self, handle: Handle, event: Ev) -> bool {
        &&& pre.busy(handle)
        &&& Self::event_changed(pre, post, handle)
        &&& post.holder(handle).event@ == Some(event)
    }

    /// Take the event out for a callback.
    ///
    /// Once the callback is done, the event needs to be returned by `event_return`.
    ///
    /// # Errors
    ///
    /// * `Error::Missing` if the event is no longer alive.
    /// * `Error::Busy` if the event is currently in the middle of a callback.
    pub(crate) fn event_take(&mut self, handle: Handle) -> (r: Result<StolenData<Ev>, Error>)
        requires
            old(self).wf(),
        ensures
            final(self).wf(),
            r is Ok <==> old(self).alive(handle) && !old(self).busy(handle),
            match r {
                Ok(data) => Self::taken(*old(self), *final(self), handle, data@) && data.owner()
                    == handle,
                Err(e) => {
                    &&& e == (if old(self).alive(handle) {
                        Error::Busy
                    } else {
                        Error::Missing
                    })
                    &&& *final(self) == *old(self)
                },
            },
    {
        // First check both the index and generation
        if !self.event_alive(handle) {
            return Err(Error::Missing);
        }
        if self.events[handle.id].event.stolen() {
            // Not there, but the holder is: it must sit on some outer stack frame, being called
            return Err(Error::Busy);
        }
        let ghost before = *self;
        let holder = self.events.index_mut(handle.id);
        let data = holder.event.steal();
        proof {
            assert(before.events@.dom() =~= self.events@.dom());
            lemma_same_registrations(before.events@, self.events@);
        }
        Ok(data)
    }

    /// Everything the killing of an event changes.
    pub open spec fn killed(pre: Self, post: Self, handle: Handle) -> bool {
        let holder = pre.holder(handle);
        &&& (post == Loop {
            events: post.events,
            timeouts_dead: post.timeouts_dead,
            ios_released: post.ios_released,
            want_idle: post.want_idle,
            signal_recipients: post.signal_recipients,
            children: post.children,
            ..pre
        })
        &&& post.events@ == pre.events@.remove(handle.id as int)
        &&& post.events.free@ == pre.events.free@.push(handle.id)
        &&& post.timeouts_dead == pre.timeouts_dead + holder.timeouts
        &&& post.ios_released@ == pre.ios_released@.union(holder.ios@.dom())
        &&& post.want_idle@ == without(pre.want_idle@, handle)
        &&& post.signal_recipients@ == other_recipients(pre.signal_recipients@, handle)
        &&& post.children@ == pre.children@.remove_keys(holder.children@)
    }

    /// Kill an event at given index.
    ///
    /// The event and its IOs are returned.
    fn event_kill(&mut self, handle: Handle) -> (r: (Ev, Vec<(usize, Io)>))
        requires
            old(self).wf(),
            old(self).alive(handle),
            !old(self).busy(handle),
        ensures
            final(self).wf(),
            Self::killed(*old(self), *final(self), handle),
            Some(r.0) == old(self).holder(handle).event@,
            lists(r.1@, old(self).holder(handle).ios@),
    {
        let ghost before = *self;
        proof {
            reveal(timers_wf);
            let g = gens(self.events@);
            assert(alive_in(g, handle));
            assert(live(g) =~= live(g).remove(handle).insert(handle));
            lemma_pending_split(self.timeouts@, self.scheduled@, live(g).remove(handle), handle);
        }
        let event = self.events.release(handle.id);
        // These timeouts are dead now
        self.timeouts_dead = self.timeouts_dead + event.timeouts;
        // The IDs are released in a delayed way
        let ios = release_ios(event.ios, &mut self.ios_released);
        self.want_idle.remove(handle);
        // There are only few signals, go through them all instead of building some fancy
        // back-linking
        forget_recipient(&mut self.signal_recipients, handle);
        forget_children(&mut self.children, &event.children);
        proof {
            before.lemma_killed(*self, handle);
        }
        // Return the internal event
        (event.event.into_inner(), ios)
    }

    /// The state of the loop stays consistent when an event is killed.
    proof fn lemma_killed(self, post: Self, handle: Handle)
        requires
            self.wf(),
            self.alive(handle),
            Self::killed(self, post, handle),
            post.events.wf(),
        ensures
            post.wf(),
    {
        let g = gens(self.events@);
        let g2 = gens(post.events@);
        let idx = handle.id as int;
        assert(g2 =~= g.remove(idx));
        assert(counts(post.events@) =~= counts(self.events@).remove(idx));
        assert(io_keys(post.events@) =~= io_keys(self.events@).remove(idx));
        assert(kids(post.events@) =~= kids(self.events@).remove(idx));
        assert forall|h: Handle| #[trigger] alive_in(g2, h) <==> (alive_in(g, h) && h != handle) by {}
        assert(live(g2) =~= live(g).remove(handle));
        assert(live(g) =~= live(g2).insert(handle));
        assert(alive_in(g, handle));
        assert(idle_wf(g2, post.want_idle@)) by {
            reveal(idle_wf);
            let f = differs(handle);
            lemma_filter_unique(self.want_idle@, f);
            assert(post.want_idle@ == self.want_idle@.filter(f));
            assert forall|j: int| 0 <= j < post.want_idle@.len() implies alive_in(
                g2,
                #[trigger] post.want_idle@[j],
            ) by {
                let x = post.want_idle@[j];
                assert(self.want_idle@.filter(f)[j] == x);
                let i = choose|i: int| 0 <= i < self.want_idle@.len() && self.want_idle@[i] == x;
                assert(alive_in(g, self.want_idle@[i]));
            }
        }
        assert(signals_wf(g2, post.signal_recipients@)) by {
            reveal(signals_wf);
            let f = other_recipient(handle);
            lemma_filter_unique(self.signal_recipients@, f);
            assert(post.signal_recipients@ == self.signal_recipients@.filter(f));
            assert forall|j: int| 0 <= j < post.signal_recipients@.len() implies alive_in(
                g2,
                (#[trigger] post.signal_recipients@[j]).1,
            ) by {
                let x = post.signal_recipients@[j];
                assert(self.signal_recipients@.filter(f)[j] == x);
                let i = choose|i: int|
                    0 <= i < self.signal_recipients@.len() && self.signal_recipients@[i] == x;
                assert(alive_in(g, self.signal_recipients@[i].1));
            }
        }
        assert(children_wf(g2, kids(post.events@), post.children@)) by {
            reveal(children_wf);
            let known = kids(self.events@);
            assert(known[idx] == self.holder(handle).children@);
            assert forall|pid: i32| #[trigger] post.children@.dom().contains(pid) implies alive_in(
                g2,
                post.children@[pid],
            ) && kids(post.events@)[post.children@[pid].id as int].contains(pid) by {
                assert(self.children@.dom().contains(pid));
            }
            assert forall|h: Handle, pid: i32|
                alive_in(g2, h) && #[trigger] kids(post.events@)[h.id as int].contains(
                    pid,
                ) implies post.children@.dom().contains(pid) && post.children@[pid] == h by {
                assert(known[h.id as int].contains(pid));
                if known[handle.id as int].contains(pid) {
                    assert(self.children@[pid] == handle);
                }
            }
        }
        assert(ios_wf(g2, io_keys(post.events@), post.ios@, post.ios_released@)) by {
            reveal(ios_wf);
            let keys = io_keys(self.events@);
            let keys2 = io_keys(post.events@);
            assert(keys[idx] == self.holder(handle).ios@.dom());
            assert forall|k: usize| post.ios@.dom().contains(k as int) implies (
            (#[trigger] post.ios_released@.contains(k)) <==> !io_owned(g2, keys2, post.ios@, k)) by {
                assert(self.ios_released@.contains(k) <==> !io_owned(g, keys, self.ios@, k));
                if keys[idx].contains(k) {
                    assert(self.ios@[k as int] == handle);
                }
            }
            assert forall|h: Handle, k: usize|
                alive_in(g2, h) && #[trigger] keys2[h.id as int].contains(
                    k,
                ) implies post.ios@.dom().contains(k as int) && post.ios@[k as int] == h by {
                assert(keys[h.id as int].contains(k));
            }
            assert forall|k: usize| #[trigger]
                post.ios_released@.contains(k) implies post.ios@.dom().contains(k as int) by {
                if keys[idx].contains(k) {
                    assert(keys[handle.id as int].contains(k));
                } else {
                    assert(self.ios_released@.contains(k));
                }
            }
        }
        assert(timers_wf(
            g2,
            counts(post.events@),
            post.timeouts@,
            post.scheduled@,
            post.timeouts_inserted,
            post.timeouts_fired,
            post.timeouts_dead,
        )) by {
            reveal(timers_wf);
            lemma_pending_split(self.timeouts@, self.scheduled@, live(g2), handle);
        }
        assert(fresh_wf(
            g2,
            post.generation,
            post.wrapped,
            post.timeouts@,
            post.scheduled@,
        )) by {
            reveal(fresh_wf);
        }
    }

    /// What becomes of an event after its callback, depending on the response.
    ///
    /// If the response is `Ok(true)`, the event continues on living. If it is `Ok(false)`, the
    /// event is destroyed. On error, the event is also destroyed.
    pub open spec fn ended(
        pre: Self,
        post: Self,
        handle: Handle,
        event: Ev,
        response: Result<bool, Error>,
        outcome: Outcome<Ev, Io>,
    ) -> bool {
        match response {
            Ok(true) => {
                &&& outcome is Kept
                &&& Self::returned(pre, post, handle, event)
            },
            Ok(false) => {
                &&& Self::killed(pre, post, handle)
                &&& outcome matches Outcome::Killed { event: e, ios }
                &&& e == event
                &&& lists(ios@, pre.holder(handle).ios@)
            },
            Err(err) => {
                &&& Self::killed(pre, post, handle)
                &&& outcome matches Outcome::Failed { event: e, ios, error }
                &&& e == event
                &&& lists(ios@, pre.holder(handle).ios@)
                &&& error == err
            },
        }
    }

    /// Return the event after a callback and do what the callback responded.
    ///
    /// If the response is `Ok(true)`, the event continues on living. If it is `Ok(false)`, the
    /// event is destroyed. On error, the event is also destroyed and the error is to be passed to
    /// the error handler.
    fn event_return(
        &mut self,
        handle: Handle,
        data: StolenData<Ev>,
        response: Result<bool, Error>,
    ) -> (r: Outcome<Ev, Io>)
        requires
            old(self).wf(),
            old(self).busy(handle),
            data.owner() == handle,
        ensures
            final(self).wf(),
            Self::ended(*old(self), *final(self), handle, data@, response, r),
    {
        let ghost before = *self;
        // Return the event we took out
        let holder = self.events.index_mut(handle.id);
        holder.event.unsteal(data);
        proof {
            assert(before.events@.dom() =~= self.events@.dom());
            lemma_same_registrations(before.events@, self.events@);
        }
        match response {
            // Keep the event alive
            Ok(true) => Outcome::Kept,
            // Kill it as asked for
            Ok(false) => {
                let (event, ios) = self.event_kill(handle);
                assert(self.events@ =~= before.events@.remove(handle.id as int));
                Outcome::Killed { event, ios }
            },
            Err(error) => {
                let (event, ios) = self.event_kill(handle);
                assert(self.events@ =~= before.events@.remove(handle.id as int));
                Outcome::Failed { event, ios, error }
            },
        }
    }

    /// Run the callback of an event that was taken out and do what it responded.
    ///
    /// What became of the event is then passed to `settle`.
    pub(crate) fn event_run<F, S>(
        &mut self,
        handle: Handle,
        data: StolenData<Ev>,
        what: Callback<D>,
        f: F,
        settle: S,
    ) -> (r: Result<(), Error>) where
        F: FnOnce(&mut Ev, &mut Self, Handle, Callback<D>) -> Result<bool, Error>,
        S: FnOnce(&mut Context, Outcome<Ev, Io>) -> Result<(), Error>,

        requires
            old(self).wf(),
            old(self).busy(handle),
            data.owner() == handle,
            forall|ev: &mut Ev, l: &mut Self|
                l.wf() && l.busy(handle) ==> #[trigger] f.requires((ev, l, handle, what)),
            forall|ev: &mut Ev, l: &mut Self, response: Result<bool, Error>|
                l.wf() && l.busy(handle) && #[trigger] f.ensures((ev, l, handle, what), response)
                    ==> final(l).wf() && final(l).busy(handle),
            forall|c: &mut Context, outcome: Outcome<Ev, Io>| #[trigger]
                settle.requires((c, outcome)),
            forall|c: &mut Context, outcome: Outcome<Ev, Io>, settled: Result<(), Error>|
                !(outcome is Failed) && #[trigger] settle.ensures((c, outcome), settled)
                    ==> settled == Ok::<(), Error>(()),
        ensures
            final(self).wf(),
            exists|
                ev: &mut Ev,
                l: &mut Self,
                response: Result<bool, Error>,
                end: Self,
                outcome: Outcome<Ev, Io>,
                c: &mut Context,
            |
                {
                    &&& *l == *old(self)
                    &&& *ev == data@
                    &&& l.wf() && l.busy(handle)
                    &&& #[trigger] f.ensures((ev, l, handle, what), response)
                    &&& final(l).wf() && final(l).busy(handle)
                    &&& #[trigger] Self::ended(
                        *final(l),
                        end,
                        handle,
                        *final(ev),
                        response,
                        outcome,
                    )
                    &&& *c == end.context
                    &&& #[trigger] settle.ensures((c, outcome), r)
                    &&& response is Ok ==> r == Ok::<(), Error>(())
                    &&& (*final(self) == Loop { context: *final(c), ..end })
                },
    {
        let mut data = data;
        let response = f(data.as_mut(), self, handle, what);
        let outcome = self.event_return(handle, data, response);
        settle(&mut self.context, outcome)
    }

    /// Run a callback on an event, with result checking
    ///
    /// The callback gets the event, the loop, the handle of the event and which callback it shall
    /// be. If it responds `Ok(true)`, the event continues on living. If it is `Ok(false)`, the event
    /// is destroyed. On error, the event is also destroyed.
    ///
    /// What became of the event is then passed to `settle`, which takes care of it (like passing
    /// the error to the error handler). Its result is propagated. Unless there was an error, there's
    /// nothing it may fail at.
    ///
    /// # Errors
    ///
    /// * `Error::Missing` if the event is no longer alive.
    /// * `Error::Busy` if the event is currently in the middle of a callback.
    pub fn event_call<F, S>(
        &mut self,
        handle: Handle,
        what: Callback<D>,
        f: F,
        settle: S,
    ) -> (r: Result<(), Error>) where
        F: FnOnce(&mut Ev, &mut Self, Handle, Callback<D>) -> Result<bool, Error>,
        S: FnOnce(&mut Context, Outcome<Ev, Io>) -> Result<(), Error>,

        requires
            old(self).wf(),
            forall|ev: &mut Ev, l: &mut Self|
                l.wf() && l.busy(handle) ==> #[trigger] f.requires((ev, l, handle, what)),
            forall|ev: &mut Ev, l: &mut Self, response: Result<bool, Error>|
                l.wf() && l.busy(handle) && #[trigger] f.ensures((ev, l, handle, what), response)
                    ==> final(l).wf() && final(l).busy(handle),
            forall|c: &mut Context, outcome: Outcome<Ev, Io>| #[trigger]
                settle.requires((c, outcome)),
            forall|c: &mut Context, outcome: Outcome<Ev, Io>, settled: Result<(), Error>|
                !(outcome is Failed) && #[trigger] settle.ensures((c, outcome), settled)
                    ==> settled == Ok::<(), Error>(()),
        ensures
            final(self).wf(),
            !old(self).alive(handle) ==> {
                &&& r == Err::<(), Error>(Error::Missing)
                &&& *final(self) == *old(self)
            },
            old(self).busy(handle) ==> {
                &&& r == Err::<(), Error>(Error::Busy)
                &&& *final(self) == *old(self)
            },
            old(self).alive(handle) && !old(self).busy(handle) ==> exists|
                ev: &mut Ev,
                l: &mut Self,
                response: Result<bool, Error>,
                end: Self,
                outcome: Outcome<Ev, Io>,
                c: &mut Context,
            |
                {
                    &&& Self::taken(*old(self), *l, handle, *ev)
                    &&& l.wf() && l.busy(handle)
                    &&& #[trigger] f.ensures((ev, l, handle, what), response)
                    &&& final(l).wf() && final(l).busy(handle)
                    &&& #[trigger] Self::ended(
                        *final(l),
                        end,
                        handle,
                        *final(ev),
                        response,
                        outcome,
                    )
                    &&& *c == end.context
                    &&& #[trigger] settle.ensures((c, outcome), r)
                    &&& response is Ok ==> r == Ok::<(), Error>(())
                    &&& (*final(self) == Loop { context: *final(c), ..end })
                },
    {
        match self.event_take(handle) {
            Ok(data) => self.event_run(handle, data, what, f, settle),
            Err(e) => Err(e),
        }
    }

    /// Insert an event and run its `init` callback.
    ///
    /// An error of the callback is passed to `settle`, like with any other callback, and what it
    /// makes out of it is returned, see [Loop::event_call]. Otherwise, the handle of the event is
    /// returned. If the error gets swallowed, it is the handle of an event already dead.
    pub fn insert_exact<F, S>(&mut self, event: Ev, f: F, settle: S) -> (r: Result<
        Handle,
        Error,
    >) where
        F: FnOnce(&mut Ev, &mut Self, Handle, Callback<D>) -> Result<bool, Error>,
        S: FnOnce(&mut Context, Outcome<Ev, Io>) -> Result<(), Error>,

        requires
            old(self).wf(),
            old(self).handle_fresh(),
            forall|ev: &mut Ev, l: &mut Self|
                l.wf() && l.busy(old(self).next_handle()) ==> #[trigger] f.requires(
                    (ev, l, old(self).next_handle(), Callback::Init),
                ),
            forall|ev: &mut Ev, l: &mut Self, response: Result<bool, Error>|
                l.wf() && l.busy(old(self).next_handle()) && #[trigger] f.ensures(
                    (ev, l, old(self).next_handle(), Callback::Init),
                    response,
                ) ==> final(l).wf() && final(l).busy(old(self).next_handle()),
            forall|c: &mut Context, outcome: Outcome<Ev, Io>| #[trigger]
                settle.requires((c, outcome)),
            forall|c: &mut Context, outcome: Outcome<Ev, Io>, settled: Result<(), Error>|
                !(outcome is Failed) && #[trigger] settle.ensures((c, outcome), settled)
                    ==> settled == Ok::<(), Error>(()),
        ensures
            final(self).wf(),
            exists|
                ev: &mut Ev,
                l: &mut Self,
                response: Result<bool, Error>,
                end: Self,
                outcome: Outcome<Ev, Io>,
                c: &mut Context,
                stored: Self,
                settled: Result<(), Error>,
            |
                {
                    &&& #[trigger] Self::inserted(
                        *old(self),
                        stored,
                        event,
                        old(self).next_handle(),
                    )
                    &&& Self::taken(stored, *l, old(self).next_handle(), *ev)
                    &&& l.wf() && l.busy(old(self).next_handle())
                    &&& #[trigger] f.ensures((ev, l, old(self).next_handle(), Callback::Init), response)
                    &&& final(l).wf() && final(l).busy(old(self).next_handle())
                    &&& #[trigger] Self::ended(
                        *final(l),
                        end,
                        old(self).next_handle(),
                        *final(ev),
                        response,
                        outcome,
                    )
                    &&& *c == end.context
                    &&& #[trigger] settle.ensures((c, outcome), settled)
                    &&& response is Ok ==> settled == Ok::<(), Error>(())
                    &&& r == (match settled {
                        Ok(_) => Ok(old(self).next_handle()),
                        Err(e) => Err(e),
                    })
                    &&& (*final(self) == Loop { context: *final(c), ..end })
                },
    {
        let handle = self.event_store(event);
        match self.event_call(handle, Callback::Init, f, settle) {
            Ok(_) => Ok(handle),
            Err(e) => Err(e),
        }
    }
}

/// Taking one more item adds exactly that item.
pub proof fn lemma_take_set<A>(s: Seq<A>, i: int)
    requires
        0 <= i < s.len(),
    ensures
        s.take(i + 1).to_set() == s.take(i).to_set().insert(s[i]),
{
    let a = s.take(i);
    let b = s.take(i + 1);
    assert forall|x: A| #[trigger] b.to_set().contains(x) <==> a.to_set().insert(s[i]).contains(
        x,
    ) by {
        if a.contains(x) {
            let j = choose|j: int| 0 <= j < a.len() && a[j] == x;
            assert(b[j] == x);
        }
        if x == s[i] {
            assert(b[i] == x);
        }
        if b.contains(x) && x != s[i] {
            let j = choose|j: int| 0 <= j < b.len() && b[j] == x;
            assert(a[j] == x);
        }
    }
    assert(b.to_set() =~= a.to_set().insert(s[i]));
}

/// A sequence without duplicates doesn't get any by leaving something out.
pub proof fn lemma_filter_unique<A>(s: Seq<A>, f: spec_fn(A) -> bool)
    ensures
        s.no_duplicates() ==> s.filter(f).no_duplicates(),
        forall|j: int|
            0 <= j < s.filter(f).len() ==> f(#[trigger] s.filter(f)[j]) && s.contains(
                s.filter(f)[j],
            ),
    decreases s.len(),
{
    reveal(Seq::filter);
    if s.len() > 0 {
        let t = s.drop_last();
        lemma_filter_unique(t, f);
        assert forall|x: A| t.contains(x) implies #[trigger] s.contains(x) by {
            let i = choose|i: int| 0 <= i < t.len() && t[i] == x;
            assert(s[i] == x);
        }
        assert(s.contains(s.last())) by {
            assert(s[s.len() - 1] == s.last());
        }
        assert forall|j: int| 0 <= j < s.filter(f).len() implies f(#[trigger] s.filter(f)[j])
            && s.contains(s.filter(f)[j]) by {
            if j < t.filter(f).len() {
                assert(s.filter(f)[j] == t.filter(f)[j]);
                assert(t.contains(t.filter(f)[j]));
            }
        }
        if s.no_duplicates() {
            assert(!t.contains(s.last()));
            assert forall|i: int, j: int| 0 <= i < j < s.filter(f).len() implies s.filter(f)[i]
                != s.filter(f)[j] by {
                assert(t.contains(t.filter(f)[i]));
                if j < t.filter(f).len() {
                    assert(t.filter(f)[i] != t.filter(f)[j]);
                }
            }
        }
    }
}

/// What the events registered for stays the same if the events do so except for their content.
pub proof fn lemma_same_registrations<Ev, Io>(
    before: Map<int, EvHolder<Ev, Io>>,
    after: Map<int, EvHolder<Ev, Io>>,
)
    requires
        before.dom() == after.dom(),
        forall|i: int| #[trigger]
            before.dom().contains(i) ==> (after[i] == EvHolder {
                event: after[i].event,
                expected_messages: after[i].expected_messages,
                ..before[i]
            }),
    ensures
        gens(after) == gens(before),
        counts(after) == counts(before),
        io_keys(after) == io_keys(before),
        kids(after) == kids(before),
{
    assert(gens(after) =~= gens(before));
    assert(counts(after) =~= counts(before));
    assert(io_keys(after) =~= io_keys(before));
    assert(kids(after) =~= kids(before));
}

} // verus!
