//! The part of the event loop that takes care of timeouts.
use vstd::multiset::Multiset;
use vstd::prelude::*;

use crate::event_loop::{
    alive_in, counts, fresh_wf, gens, ids_wf, io_keys, kids, live, timers_wf, EvHolder, Loop,
};
use crate::handle::{Handle, TimeoutId};
use crate::task::{
    due, for_one_of, lemma_due_filter, lemma_due_full, lemma_due_insert, lemma_due_remove,
    lemma_id_push, lemma_pending_subset, lemma_queued_none, lemma_queued_push, lemma_stored_insert,
    lemma_stored_remove, lemma_stored_subset, no_timeouts, pending, waiting, Task, TaskParam,
};
use crate::timers::{soonest, TimeoutHeap, TimeoutHolder};

verus! {

/// The timeout is the first one of those for the given events.
pub open spec fn soonest_for(
    m: Multiset<TimeoutHolder>,
    s: Set<Handle>,
    t: TimeoutHolder,
) -> bool {
    soonest(m.filter(for_one_of(s)), t)
}

/// How long it takes from one instant to a later one.
fn span(from: i128, to: i128) -> (r: u128)
    requires
        from <= to,
    ensures
        r == to - from,
{
    if from >= 0 || to < 0 {
        (to - from) as u128
    } else {
        (-(from + 1)) as u128 + 1 + to as u128
    }
}

/// The time of the timeout has come.
pub open spec fn over(now: i128) -> spec_fn(TimeoutHolder) -> bool {
    |t: TimeoutHolder| t.when <= now
}

/// The time of the timeout has not come yet.
pub open spec fn not_over(now: i128) -> spec_fn(TimeoutHolder) -> bool {
    |t: TimeoutHolder| t.when > now
}

/// The task of telling the event about its timeout.
pub open spec fn timeout_task<D>() -> spec_fn(TimeoutHolder) -> Task<D> {
    |t: TimeoutHolder| Task { recipient: t.recipient, param: TaskParam::Timeout(t.id) }
}

/// The timeouts are in the order in which they happen.
pub open spec fn in_order(s: Seq<TimeoutHolder>) -> bool {
    forall|i: int, j: int| 0 <= i < j < s.len() ==> (#[trigger] s[i]).when <= (#[trigger] s[j]).when
}

/// These are all the timeouts whose time has come, in the order in which they happen.
pub open spec fn fires(m: Multiset<TimeoutHolder>, now: i128, fired: Seq<TimeoutHolder>) -> bool {
    &&& fired.to_multiset() == m.filter(over(now))
    &&& in_order(fired)
}

impl<Context, Ev, D, Io> Loop<Context, Ev, D, Io> {
    /// The timeouts stored that belong to events alive.
    pub open spec fn timers_alive(&self) -> nat {
        due(self.timeouts@, live(gens(self.events@)))
    }

    /// The timeouts stored that belong to events already dead.
    pub open spec fn timers_dead(&self) -> int {
        self.timeouts@.len() - self.timers_alive()
    }

    /// When to wake up at latest.
    ///
    /// There's no waiting if someone wants to do something when the loop is idle. Otherwise, it is
    /// until the first timeout of a living event, if there's one.
    pub open spec fn wakes_up(&self, now: i128, r: Option<u128>) -> bool {
        if self.want_idle@.len() > 0 {
            r == Some(0u128)
        } else {
            match r {
                Some(wait) => exists|t: TimeoutHolder|
                    {
                        &&& #[trigger] soonest_for(self.timeouts@, live(gens(self.events@)), t)
                        &&& wait == (if t.when < now {
                            0
                        } else {
                            t.when - now
                        })
                    },
                None => self.timers_alive() == 0,
            }
        }
    }

    /// There are too many timeouts of dead events.
    pub open spec fn needs_pruning(&self) -> bool {
        self.timers_dead() > 5 && self.timers_alive() * 3 < self.timers_dead()
    }

    /// The timeouts that are left after dropping those of dead events if there are too many.
    pub open spec fn pruned(&self) -> Multiset<TimeoutHolder> {
        if self.needs_pruning() {
            self.timeouts@.filter(for_one_of(live(gens(self.events@))))
        } else {
            self.timeouts@
        }
    }

    /// The timeouts stay accounted for when they only move around.
    pub proof fn lemma_pending_same(self, post: Self)
        requires
            self.wf(),
            post.events == self.events,
            post.generation == self.generation,
            post.wrapped == self.wrapped,
            post.timeouts_inserted == self.timeouts_inserted,
            post.timeouts_fired == self.timeouts_fired,
            post.timeouts_dead == self.timeouts_dead,
            post.timeout_generation == self.timeout_generation,
            post.timeout_wrapped == self.timeout_wrapped,
            forall|s: Set<Handle>| #[trigger]
                pending(post.timeouts@, post.scheduled@, s) == pending(
                    self.timeouts@,
                    self.scheduled@,
                    s,
                ),
            forall|id: TimeoutId| #[trigger]
                waiting(post.timeouts@, post.scheduled@, id) == waiting(
                    self.timeouts@,
                    self.scheduled@,
                    id,
                ),
        ensures
            timers_wf(
                gens(post.events@),
                counts(post.events@),
                post.timeouts@,
                post.scheduled@,
                post.timeouts_inserted,
                post.timeouts_fired,
                post.timeouts_dead,
            ),
            fresh_wf(
                gens(post.events@),
                post.generation,
                post.wrapped,
                post.timeouts@,
                post.scheduled@,
            ),
            ids_wf(
                post.timeout_generation,
                post.timeout_wrapped,
                post.timeouts@,
                post.scheduled@,
            ),
    {
        reveal(timers_wf);
        reveal(fresh_wf);
        reveal(ids_wf);
    }

    /// No new ids appear when some timeouts are left out.
    proof fn lemma_ids_left(self, post: Self)
        requires
            self.wf(),
            post.timeout_generation == self.timeout_generation,
            post.timeout_wrapped == self.timeout_wrapped,
            post.timeouts@.subset_of(self.timeouts@),
            post.scheduled == self.scheduled,
        ensures
            ids_wf(
                post.timeout_generation,
                post.timeout_wrapped,
                post.timeouts@,
                post.scheduled@,
            ),
    {
        reveal(ids_wf);
        assert forall|id: TimeoutId| #[trigger]
            waiting(post.timeouts@, post.scheduled@, id) <= waiting(
                self.timeouts@,
                self.scheduled@,
                id,
            ) by {
            lemma_stored_subset(post.timeouts@, self.timeouts@, id);
        }
    }

    /// Dropping a timeout of a dead event keeps the state of the loop consistent.
    proof fn lemma_dead_popped(self, post: Self, t: TimeoutHolder)
        requires
            self.wf(),
            post == (Loop { timeouts: post.timeouts, ..self }),
            self.timeouts@.contains(t),
            post.timeouts@ == self.timeouts@.remove(t),
            !self.alive(t.recipient),
        ensures
            post.wf(),
            post.timeouts@.len() < self.timeouts@.len(),
            post.timeouts@.filter(for_one_of(live(gens(self.events@)))) == self.timeouts@.filter(
                for_one_of(live(gens(self.events@))),
            ),
            post.timeouts@.subset_of(self.timeouts@),
    {
        broadcast use vstd::multiset::group_multiset_axioms;

        let g = gens(self.events@);
        self.lemma_ids_left(post);
        assert(!alive_in(g, t.recipient));
        assert(post.timeouts@.filter(for_one_of(live(g))) =~= self.timeouts@.filter(
            for_one_of(live(g)),
        ));
        assert forall|s: Set<Handle>| #[trigger]
            pending(post.timeouts@, post.scheduled@, s) <= pending(
                self.timeouts@,
                self.scheduled@,
                s,
            ) by {
            lemma_due_remove(self.timeouts@, t, s);
        }
        assert(timers_wf(
            g,
            counts(post.events@),
            post.timeouts@,
            post.scheduled@,
            post.timeouts_inserted,
            post.timeouts_fired,
            post.timeouts_dead,
        )) by {
            reveal(timers_wf);
            assert forall|h: Handle| #[trigger] alive_in(g, h) implies counts(
                post.events@,
            )[h.id as int] == pending(post.timeouts@, post.scheduled@, set![h]) by {
                lemma_due_remove(self.timeouts@, t, set![h]);
            }
        }
        assert(fresh_wf(g, post.generation, post.wrapped, post.timeouts@, post.scheduled@)) by {
            reveal(fresh_wf);
            assert forall|h: Handle|
                !post.wrapped && h.generation >= post.generation implies #[trigger] pending(
                post.timeouts@,
                post.scheduled@,
                set![h],
            ) == 0 by {
                assert(pending(self.timeouts@, self.scheduled@, set![h]) == 0);
            }
        }
    }

    /// Everything the adding of a timeout changes.
    pub open spec fn timeout_added(
        pre: Self,
        post: Self,
        handle: Handle,
        when: i128,
        id: TimeoutId,
    ) -> bool {
        &&& id.0 == pre.timeout_generation
        &&& (post == Loop {
            events: post.events,
            timeouts: post.timeouts,
            timeouts_inserted: post.timeouts_inserted,
            timeout_generation: post.timeout_generation,
            timeout_wrapped: post.timeout_wrapped,
            ..pre
        })
        &&& post.timeouts_inserted == pre.timeouts_inserted + 1
        &&& post.timeout_wrapped == (pre.timeout_wrapped || pre.timeout_generation == u64::MAX)
        &&& post.timeout_generation == (if pre.timeout_generation == u64::MAX {
            0
        } else {
            pre.timeout_generation + 1
        })
        &&& post.timeouts@ == pre.timeouts@.insert(TimeoutHolder { id, recipient: handle, when })
        &&& post.events@ == pre.events@.insert(
            handle.id as int,
            EvHolder { timeouts: post.holder(handle).timeouts, ..pre.holder(handle) },
        )
        &&& post.events.free@ == pre.events.free@
        &&& post.holder(handle).timeouts == pre.holder(handle).timeouts + 1
    }

    /// Schedule a timeout for the given event
    ///
    /// Single event may have arbitrary number of timeouts registered. The timeout is single-shot
    /// (happens just once).
    pub fn timeout_at(&mut self, handle: Handle, when: i128) -> (id: TimeoutId)
        requires
            old(self).wf(),
            old(self).alive(handle),
            old(self).timeouts_inserted < usize::MAX,
        ensures
            final(self).wf(),
            Self::timeout_added(*old(self), *final(self), handle, when, id),
    {
        let ghost before = *self;
        proof {
            reveal(timers_wf);
            let g = gens(self.events@);
            assert(alive_in(g, handle));
            assert(set![handle].subset_of(live(g)));
            lemma_pending_subset(self.timeouts@, self.scheduled@, set![handle], live(g));
        }
        // Generate an ID for the timeout
        let id = TimeoutId(self.timeout_generation);
        if self.timeout_generation == u64::MAX {
            self.timeout_wrapped = true;
        }
        self.timeout_generation = self.timeout_generation.wrapping_add(1);
        let holder = self.events.index_mut(handle.id);
        holder.timeouts = holder.timeouts + 1;
        self.timeouts_inserted = self.timeouts_inserted + 1;

        let timeout = TimeoutHolder { id, recipient: handle, when };
        self.timeouts.push(timeout);
        proof {
            assert(ids_wf(
                self.timeout_generation,
                self.timeout_wrapped,
                self.timeouts@,
                self.scheduled@,
            )) by {
                reveal(ids_wf);
                assert forall|other: TimeoutId| #[trigger]
                    waiting(self.timeouts@, self.scheduled@, other) == waiting(
                        before.timeouts@,
                        before.scheduled@,
                        other,
                    ) + (if other == id {
                        1nat
                    } else {
                        0nat
                    }) by {
                    lemma_stored_insert(before.timeouts@, timeout, other);
                }
            }
            let g = gens(before.events@);
            assert(gens(self.events@) =~= g);
            assert(io_keys(self.events@) =~= io_keys(before.events@));
            assert(kids(self.events@) =~= kids(before.events@));
            assert(timers_wf(
                g,
                counts(self.events@),
                self.timeouts@,
                self.scheduled@,
                self.timeouts_inserted,
                self.timeouts_fired,
                self.timeouts_dead,
            )) by {
                reveal(timers_wf);
                lemma_due_insert(before.timeouts@, timeout, live(g));
                lemma_due_insert(before.timeouts@, timeout, Set::<Handle>::full());
                assert forall|h: Handle| #[trigger] alive_in(g, h) implies counts(
                    self.events@,
                )[h.id as int] == pending(self.timeouts@, self.scheduled@, set![h]) by {
                    lemma_due_insert(before.timeouts@, timeout, set![h]);
                    assert(counts(before.events@)[h.id as int] == pending(
                        before.timeouts@,
                        before.scheduled@,
                        set![h],
                    ));
                }
            }
            assert(fresh_wf(
                g,
                self.generation,
                self.wrapped,
                self.timeouts@,
                self.scheduled@,
            )) by {
                reveal(fresh_wf);
                assert forall|h: Handle|
                    !self.wrapped && h.generation >= self.generation implies #[trigger] pending(
                    self.timeouts@,
                    self.scheduled@,
                    set![h],
                ) == 0 by {
                    lemma_due_insert(before.timeouts@, timeout, set![h]);
                    assert(pending(before.timeouts@, before.scheduled@, set![h]) == 0);
                    assert(g.dom().contains(handle.id as int));
                }
            }
        }
        id
    }

    /// Schedule a timeout after a given time.
    ///
    /// This is almost the same as [Loop::timeout_at], with the only difference that this is at a
    /// time interval from now, not at a given instant.
    pub fn timeout_after(&mut self, handle: Handle, after: u128) -> (id: TimeoutId)
        requires
            old(self).wf(),
            old(self).alive(handle),
            old(self).timeouts_inserted < usize::MAX,
            old(self).now + after <= i128::MAX,
        ensures
            final(self).wf(),
            Self::timeout_added(
                *old(self),
                *final(self),
                handle,
                (old(self).now + after) as i128,
                id,
            ),
    {
        // Half of the time fits for sure
        let half: i128 = (after / 2) as i128;
        let odd: i128 = (after % 2) as i128;
        let at: i128 = self.now + half + half + odd;
        self.timeout_at(handle, at)
    }

    /// Compute when to wake up latest (we can wake up sooner). This takes the scheduled timeouts
    /// into consideration, but also things like existence of Idle tasks.
    ///
    /// As the computations since the last gathering may have taken some time, the caller provides
    /// a fresh now.
    pub fn timeout_min(&mut self, now: i128) -> (r: Option<u128>)
        requires
            old(self).wf(),
        ensures
            final(self).wf(),
            (*final(self) == Loop { timeouts: final(self).timeouts, ..*old(self) }),
            final(self).timeouts@.filter(for_one_of(live(gens(old(self).events@))))
                == old(self).timeouts@.filter(for_one_of(live(gens(old(self).events@)))),
            final(self).timeouts@.subset_of(old(self).timeouts@),
            old(self).wakes_up(now, r),
    {
        let ghost g = gens(self.events@);
        let ghost kept = for_one_of(live(g));
        let mut head: Option<TimeoutHolder> = self.timeouts.peek();
        // First, get rid of all timeouts to dead events (since we don't want to wake up because of
        // them).
        loop
            invariant
                self.wf(),
                *self == (Loop { timeouts: self.timeouts, ..*old(self) }),
                g == gens(old(self).events@),
                kept == for_one_of(live(g)),
                self.timeouts@.filter(kept) == old(self).timeouts@.filter(kept),
                self.timeouts@.subset_of(old(self).timeouts@),
                match head {
                    Some(t) => soonest(self.timeouts@, t) && t == self.timeouts.first(),
                    None => self.timeouts@.len() == 0,
                },
            ensures
                match head {
                    Some(t) => alive_in(g, t.recipient),
                    None => true,
                },
            decreases self.timeouts@.len(),
        {
            match head {
                Some(t) => {
                    if self.event_alive(t.recipient) {
                        break;
                    }
                    let ghost before = *self;
                    let popped = self.timeouts.pop();
                    proof {
                        assert(popped == Some(t));
                        before.lemma_dead_popped(*self, t);
                    }
                    head = self.timeouts.peek();
                },
                None => {
                    break;
                },
            }
        }
        proof {
            broadcast use vstd::multiset::group_multiset_axioms;

            match head {
                Some(t) => {
                    assert(kept(t));
                    assert(self.timeouts@.filter(kept).contains(t));
                    assert forall|u: TimeoutHolder| #[trigger]
                        old(self).timeouts@.filter(kept).contains(u) implies t.when <= u.when by {
                        assert(self.timeouts@.filter(kept).contains(u));
                        assert(self.timeouts@.contains(u));
                    }
                    assert(soonest_for(old(self).timeouts@, live(g), t));
                },
                None => {
                    assert(self.timeouts@ =~= Multiset::<TimeoutHolder>::empty());
                    assert(self.timeouts@.filter(kept) =~= Multiset::<TimeoutHolder>::empty());
                },
            }
        }
        if !self.want_idle.is_empty() {
            // We have some idle tasks, so we run them whenever possible: don't block
            return Some(0);
        }
        match head {
            Some(t) => {
                if t.when < now {
                    Some(0)
                } else {
                    Some(span(now, t.when))
                }
            },
            None => None,
        }
    }

    /// Do some timeouts wait in the queue to be delivered?
    pub fn timeouts_scheduled(&self) -> (r: bool)
        ensures
            r == !no_timeouts(self.scheduled@),
    {
        let mut i: usize = 0;
        while i < self.scheduled.len()
            invariant
                i <= self.scheduled@.len(),
                forall|j: int| 0 <= j < i ==> !((#[trigger] self.scheduled@[j]).param is Timeout),
            decreases self.scheduled@.len() - i,
        {
            match &self.scheduled[i].param {
                TaskParam::Timeout(_) => {
                    assert(self.scheduled@[i as int].param is Timeout);
                    return true;
                },
                _ => {},
            }
            i = i + 1;
        }
        false
    }

    /// Kill the timers for dead events if there are too many of them
    ///
    /// This happens when there are no timeouts waiting in the queue to be delivered. The statistics
    /// are computed anew. If there are more than a handful of dead timeouts and they outnumber the
    /// living ones more than three times, they get dropped.
    pub fn timers_cleanup(&mut self)
        requires
            old(self).wf(),
            no_timeouts(old(self).scheduled@),
        ensures
            final(self).wf(),
            (*final(self) == Loop {
                timeouts: final(self).timeouts,
                timeouts_dead: final(self).timeouts_dead,
                timeouts_fired: 0,
                timeouts_inserted: final(self).timeouts_inserted,
                ..*old(self)
            }),
            final(self).timeouts_inserted == final(self).timeouts@.len(),
            final(self).timeouts@ == old(self).pruned(),
            final(self).timeouts_dead == (if old(self).needs_pruning() {
                0
            } else {
                old(self).timers_dead()
            }),
    {
        let ghost before = *self;
        let ghost g = gens(self.events@);
        proof {
            reveal(timers_wf);
            lemma_due_full(self.timeouts@);
            lemma_queued_none(self.scheduled@, Set::<Handle>::full());
            lemma_queued_none(self.scheduled@, live(g));
            lemma_pending_subset(self.timeouts@, self.scheduled@, live(g), Set::<Handle>::full());
        }
        // Compute more useful stats than we have
        let stored: usize = self.timeouts.len();
        let handled: usize = self.timeouts_inserted - stored;
        let handled_dead: usize = handled - self.timeouts_fired;
        let still_dead: usize = self.timeouts_dead - handled_dead;
        let still_alive: usize = stored - still_dead;
        // Reset the stats
        self.timeouts_dead = still_dead;
        self.timeouts_fired = 0;
        self.timeouts_inserted = stored;
        proof {
            assert(still_dead == before.timers_dead());
            assert(still_alive == before.timers_alive());
            assert(self.wf()) by {
                reveal(fresh_wf);
            }
        }
        // Check for too many dead ones in the storage
        if still_dead > 5 && (still_alive as u128) * 3 < still_dead as u128 {
            let mut old_timeouts: TimeoutHeap = TimeoutHeap::new();
            std::mem::swap(&mut old_timeouts, &mut self.timeouts);
            let items: Vec<TimeoutHolder> = old_timeouts.into_vec();
            let mut pruned: TimeoutHeap = TimeoutHeap::new();
            let mut i: usize = 0;
            proof {
                broadcast use vstd::multiset::group_multiset_axioms;
                broadcast use vstd::seq_lib::group_to_multiset_ensures;

                assert(items@.take(0).to_multiset().len() == 0);
                assert(items@.take(0).to_multiset() =~= Multiset::<TimeoutHolder>::empty());
                assert(pruned@ =~= items@.take(0).to_multiset().filter(for_one_of(live(g))));
            }
            while i < items.len()
                invariant
                    i <= items@.len(),
                    g == gens(self.events@),
                    pruned@ == items@.take(i as int).to_multiset().filter(for_one_of(live(g))),
                decreases items@.len() - i,
            {
                let t = items[i];
                if self.event_alive(t.recipient) {
                    pruned.push(t);
                }
                proof {
                    broadcast use vstd::multiset::group_multiset_axioms;
                    broadcast use vstd::seq_lib::group_to_multiset_ensures;

                    assert(items@.take(i + 1) =~= items@.take(i as int).push(t));
                    assert(pruned@ =~= items@.take(i + 1).to_multiset().filter(
                        for_one_of(live(g)),
                    ));
                }
                i = i + 1;
            }
            proof {
                assert(items@.take(i as int) =~= items@);
            }
            self.timeouts = pruned;
            self.timeouts_dead = 0;
            self.timeouts_inserted = self.timeouts.len();
            proof {
                before.lemma_pruned(*self);
            }
        }
    }

    /// Dropping all the timeouts of dead events keeps the state of the loop consistent.
    proof fn lemma_pruned(self, post: Self)
        requires
            self.wf(),
            no_timeouts(self.scheduled@),
            (post == Loop {
                timeouts: post.timeouts,
                timeouts_dead: 0,
                timeouts_fired: 0,
                timeouts_inserted: post.timeouts_inserted,
                ..self
            }),
            post.timeouts@ == self.timeouts@.filter(for_one_of(live(gens(self.events@)))),
            post.timeouts_inserted == post.timeouts@.len(),
        ensures
            post.wf(),
    {
        broadcast use vstd::multiset::group_multiset_axioms;

        let g = gens(self.events@);
        let q = self.scheduled@;
        self.lemma_ids_left(post);
        assert forall|s: Set<Handle>| #[trigger]
            pending(post.timeouts@, q, s) == pending(self.timeouts@, q, s.intersect(live(g))) by {
            lemma_due_filter(self.timeouts@, live(g), s);
            lemma_queued_none(q, s);
            lemma_queued_none(q, s.intersect(live(g)));
        }
        assert(live(g).intersect(live(g)) =~= live(g));
        assert(Set::<Handle>::full().intersect(live(g)) =~= live(g));
        assert(timers_wf(
            g,
            counts(post.events@),
            post.timeouts@,
            post.scheduled@,
            post.timeouts_inserted,
            post.timeouts_fired,
            post.timeouts_dead,
        )) by {
            reveal(timers_wf);
            lemma_due_full(post.timeouts@);
            lemma_queued_none(q, Set::<Handle>::full());
            assert(pending(post.timeouts@, q, Set::<Handle>::full()) == post.timeouts@.len());
            assert forall|h: Handle| #[trigger] alive_in(g, h) implies counts(
                post.events@,
            )[h.id as int] == pending(post.timeouts@, post.scheduled@, set![h]) by {
                assert(set![h].intersect(live(g)) =~= set![h]);
            }
        }
        assert(fresh_wf(g, post.generation, post.wrapped, post.timeouts@, post.scheduled@)) by {
            reveal(fresh_wf);
            assert forall|h: Handle|
                !post.wrapped && h.generation >= post.generation implies #[trigger] pending(
                post.timeouts@,
                post.scheduled@,
                set![h],
            ) == 0 by {
                assert(pending(self.timeouts@, q, set![h]) == 0);
                lemma_pending_subset(
                    self.timeouts@,
                    q,
                    set![h].intersect(live(g)),
                    set![h],
                );
            }
        }
    }

    /// Take the timers that are due and put them to the scheduled queue
    pub fn tasks_gather_timers(&mut self)
        requires
            old(self).wf(),
        ensures
            final(self).wf(),
            (*final(self) == Loop {
                timeouts: final(self).timeouts,
                scheduled: final(self).scheduled,
                ..*old(self)
            }),
            final(self).timeouts@ == old(self).timeouts@.filter(not_over(old(self).now)),
            exists|fired: Seq<TimeoutHolder>|
                {
                    &&& #[trigger] fires(old(self).timeouts@, old(self).now, fired)
                    &&& final(self).scheduled@ == old(self).scheduled@ + fired.map_values(
                        timeout_task(),
                    )
                },
    {
        let ghost before = *self;
        let ghost mut fired = Seq::<TimeoutHolder>::empty();
        let mut head: Option<TimeoutHolder> = self.timeouts.peek();
        proof {
            broadcast use vstd::multiset::group_multiset_axioms;
            broadcast use vstd::seq_lib::group_to_multiset_ensures;

            assert(fired.to_multiset() =~= Multiset::<TimeoutHolder>::empty());
            assert(before.timeouts@ =~= self.timeouts@.add(fired.to_multiset()));
            assert(self.scheduled@ =~= before.scheduled@ + fired.map_values(timeout_task()));
        }
        loop
            invariant
                before == *old(self),
                self.wf(),
                *self == (Loop {
                    timeouts: self.timeouts,
                    scheduled: self.scheduled,
                    ..before
                }),
                before.timeouts@ == self.timeouts@.add(fired.to_multiset()),
                self.scheduled@ == before.scheduled@ + fired.map_values(timeout_task()),
                in_order(fired),
                forall|i: int| 0 <= i < fired.len() ==> (#[trigger] fired[i]).when <= before.now,
                forall|i: int, u: TimeoutHolder|
                    0 <= i < fired.len() && #[trigger] self.timeouts@.contains(u) ==> (
                    #[trigger] fired[i]).when <= u.when,
                match head {
                    Some(t) => soonest(self.timeouts@, t) && t == self.timeouts.first(),
                    None => self.timeouts@.len() == 0,
                },
            ensures
                match head {
                    Some(t) => t.when > before.now,
                    None => true,
                },
            decreases self.timeouts@.len(),
        {
            match head {
                Some(t) => {
                    if t.when > self.now {
                        break;
                    }
                    let ghost prev = *self;
                    let popped = self.timeouts.pop();
                    let task = Task { recipient: t.recipient, param: TaskParam::Timeout(t.id) };
                    let ghost moved = task;
                    self.scheduled.push_back(task);
                    proof {
                        broadcast use vstd::multiset::group_multiset_axioms;
                        broadcast use vstd::seq_lib::group_to_multiset_ensures;

                        assert(popped == Some(t));
                        fired = fired.push(t);
                        assert(before.timeouts@ =~= self.timeouts@.add(fired.to_multiset()));
                        assert(self.scheduled@ =~= before.scheduled@ + fired.map_values(
                            timeout_task(),
                        ));
                        assert forall|s: Set<Handle>| #[trigger]
                            pending(self.timeouts@, self.scheduled@, s) == pending(
                                prev.timeouts@,
                                prev.scheduled@,
                                s,
                            ) by {
                            lemma_due_remove(prev.timeouts@, t, s);
                            lemma_queued_push(prev.scheduled@, moved, s);
                        }
                        assert forall|id: TimeoutId| #[trigger]
                            waiting(self.timeouts@, self.scheduled@, id) == waiting(
                                prev.timeouts@,
                                prev.scheduled@,
                                id,
                            ) by {
                            lemma_stored_remove(prev.timeouts@, t, id);
                            lemma_id_push(prev.scheduled@, moved, id);
                        }
                        prev.lemma_pending_same(*self);
                        assert forall|i: int, u: TimeoutHolder|
                            0 <= i < fired.len()
                                && #[trigger] self.timeouts@.contains(u) implies (
                        #[trigger] fired[i]).when <= u.when by {
                            assert(prev.timeouts@.contains(u));
                        }
                    }
                    head = self.timeouts.peek();
                },
                None => {
                    break;
                },
            }
        }
        proof {
            broadcast use vstd::multiset::group_multiset_axioms;
            broadcast use vstd::seq_lib::group_to_multiset_ensures;

            assert forall|u: TimeoutHolder| #[trigger] self.timeouts@.count(u) > 0 implies u.when
                > before.now by {
                assert(self.timeouts@.contains(u));
            }
            assert forall|u: TimeoutHolder| #[trigger] fired.to_multiset().count(
                u,
            ) > 0 implies u.when <= before.now by {
                assert(fired.contains(u));
                let i = choose|i: int| 0 <= i < fired.len() && fired[i] == u;
            }
            assert(self.timeouts@ =~= before.timeouts@.filter(not_over(before.now)));
            assert(fired.to_multiset() =~= before.timeouts@.filter(over(before.now)));
            assert(fires(before.timeouts@, before.now, fired));
        }
    }
}

} // verus!
