//! The part of the event loop that decides what happens next.
use vstd::prelude::*;
use vstd::std_specs::iter::IteratorSpec;

use std::collections::HashSet;

use crate::error::Error;
use crate::event_loop::{
    alive_in, counts, fresh_wf, gens, idle_wf, ids_wf, io_keys, io_owned, ios_wf, kids,
    lemma_take_set, live, timers_wf, EvHolder, Loop, Outcome,
};
use crate::handle::{Handle, TimeoutId};
use crate::loop_timers::{fires, not_over, timeout_task};
use crate::stolen_cell::StolenData;
use crate::task::{
    for_one_of, lemma_id_first, lemma_queued_first, no_timeouts, pending, timeout_weight, waiting,
    Callback, Task, TaskParam,
};
use crate::timers::TimeoutHolder;

verus! {

broadcast use vstd::std_specs::hash::group_hash_axioms;

/// What shall be done to get the loop a step further.
pub enum Step<Ev, D> {
    /// There's nothing to do, some tasks need to be gathered first.
    Gather,
    /// A callback of the event is to be called.
    Call { handle: Handle, event: StolenData<Ev>, param: TaskParam<D> },
    /// Nothing more, this was the step.
    Done(Result<(), Error>),
}

/// The ids as indexes to the storage.
pub open spec fn as_indexes(s: Set<usize>) -> Set<int> {
    Set::new(|i: int| 0 <= i <= usize::MAX && s.contains(i as usize))
}

/// The content of the set, in no particular order.
fn listed(s: &HashSet<usize>) -> (r: Vec<usize>)
    ensures
        r@.no_duplicates(),
        r@.to_set() == s@,
{
    let mut r: Vec<usize> = Vec::new();
    let iter = s.iter();
    let ghost order = iter.remaining().unref();
    for k in it: iter
        invariant
            it.seq().unref() == order,
            r@ == order.take(it.index()),
    {
        r.push(*k);
        assert(order[it.index()] == *k);
    }
    assert(r@ =~= order);
    r
}

impl<Context, Ev, D, Io> Loop<Context, Ev, D, Io> {
    /// Everything the start of gathering changes.
    ///
    /// The ids of IOs that were only held are free now. Some timeouts of dead events may have been
    /// dropped.
    pub open spec fn gather_started(pre: Self, post: Self) -> bool {
        let kept = for_one_of(live(gens(pre.events@)));
        &&& (post == Loop {
            ios: post.ios,
            ios_released: post.ios_released,
            timeouts: post.timeouts,
            ..pre
        })
        &&& post.ios@ == pre.ios@.remove_keys(as_indexes(pre.ios_released@))
        &&& post.ios_released@ == Set::<usize>::empty()
        &&& post.timeouts@.filter(kept) == pre.timeouts@.filter(kept)
        &&& post.timeouts@.subset_of(pre.timeouts@)
    }

    /// Start gathering some tasks (there are none scheduled now).
    ///
    /// The caller shall then wait for IO (for the returned time at most), set the time by
    /// [Loop::now_set], describe what happened and call [Loop::tasks_gather_finish].
    ///
    /// # Errors
    ///
    /// * `Error::Empty` if there are no events.
    pub fn tasks_gather(&mut self, now: i128) -> (r: Result<Option<u128>, Error>)
        requires
            old(self).wf(),
            old(self).scheduled@.len() == 0,
        ensures
            final(self).wf(),
            Self::gather_started(*old(self), *final(self)),
            match r {
                Ok(wait) => {
                    &&& old(self).events@ != Map::<int, EvHolder<Ev, Io>>::empty()
                    &&& old(self).wakes_up(now, wait)
                },
                Err(e) => {
                    &&& e == Error::Empty
                    &&& old(self).events@ == Map::<int, EvHolder<Ev, Io>>::empty()
                    &&& final(self).timeouts == old(self).timeouts
                },
            },
    {
        // Release the IO ids we held, there are no more things in queue which could trigger them
        self.ios_release();
        if self.events.is_empty() {
            // We can't gather any tasks if there are no events, we would just block forever
            assert(self.timeouts@.subset_of(old(self).timeouts@));
            return Err(Error::Empty);
        }
        Ok(self.timeout_min(now))
    }

    /// Release the IO ids that are held but no longer in use.
    fn ios_release(&mut self)
        requires
            old(self).wf(),
        ensures
            final(self).wf(),
            (*final(self) == Loop {
                ios: final(self).ios,
                ios_released: final(self).ios_released,
                ..*old(self)
            }),
            final(self).ios@ == old(self).ios@.remove_keys(as_indexes(old(self).ios_released@)),
            final(self).ios_released@ == Set::<usize>::empty(),
    {
        let ghost before = *self;
        let ids: Vec<usize> = listed(&self.ios_released);
        proof {
            reveal(ios_wf);
            assert forall|i: int| 0 <= i < ids@.len() implies before.ios@.dom().contains(
                (#[trigger] ids@[i]) as int,
            ) by {
                assert(ids@.to_set().contains(ids@[i]));
            }
            assert(self.ios@ =~= before.ios@.remove_keys(as_indexes(ids@.take(0).to_set())));
        }
        let mut i: usize = 0;
        while i < ids.len()
            invariant
                i <= ids@.len(),
                ids@.no_duplicates(),
                forall|j: int|
                    0 <= j < ids@.len() ==> before.ios@.dom().contains(
                        (#[trigger] ids@[j]) as int,
                    ),
                self.ios.wf(),
                self.ios@ == before.ios@.remove_keys(as_indexes(ids@.take(i as int).to_set())),
                *self == (Loop { ios: self.ios, ..before }),
            decreases ids@.len() - i,
        {
            let id: usize = ids[i];
            let ghost a = ids@.take(i as int);
            let ghost b = ids@.take(i + 1);
            proof {
                if a.to_set().contains(id) {
                    let j = choose|j: int| 0 <= j < a.len() && a[j] == id;
                    assert(ids@[j] == ids@[i as int]);
                }
                lemma_take_set(ids@, i as int);
            }
            let _ = self.ios.release(id);
            assert(self.ios@ =~= before.ios@.remove_keys(as_indexes(b.to_set())));
            i = i + 1;
        }
        assert(ids@.take(i as int) =~= ids@);
        self.ios_released.clear();
        proof {
            reveal(ios_wf);
            let g = gens(self.events@);
            let keys = io_keys(self.events@);
            assert forall|k: usize| self.ios@.dom().contains(k as int) implies (
            (#[trigger] self.ios_released@.contains(k)) <==> !io_owned(g, keys, self.ios@, k)) by {
                assert(before.ios_released@.contains(k) <==> !io_owned(g, keys, before.ios@, k));
            }
            assert forall|h: Handle, k: usize|
                alive_in(g, h) && #[trigger] keys[h.id as int].contains(
                    k,
                ) implies self.ios@.dom().contains(k as int) && self.ios@[k as int] == h by {
                assert(before.ios_released@.contains(k) <==> !io_owned(g, keys, before.ios@, k));
            }
        }
    }

    /// Set the current time, after waiting for IO.
    pub fn now_set(&mut self, now: i128)
        requires
            old(self).wf(),
        ensures
            final(self).wf(),
            (*final(self) == Loop { now, ..*old(self) }),
    {
        self.now = now;
    }

    /// Everything the last part of gathering changes.
    ///
    /// The timeouts of dead events are dropped if there are too many of these, the timeouts that
    /// are due are scheduled, in order. If there's still nothing scheduled, the event waiting for
    /// the loop to be idle for the longest time is.
    pub open spec fn gathered(pre: Self, post: Self, fired: Seq<TimeoutHolder>) -> bool {
        let queue = pre.scheduled@ + fired.map_values(timeout_task());
        &&& (post == Loop {
            timeouts: post.timeouts,
            timeouts_dead: post.timeouts_dead,
            timeouts_fired: 0,
            timeouts_inserted: post.timeouts_inserted,
            scheduled: post.scheduled,
            want_idle: post.want_idle,
            ..pre
        })
        &&& fires(pre.pruned(), pre.now, fired)
        &&& post.timeouts@ == pre.pruned().filter(not_over(pre.now))
        &&& post.timeouts_inserted == pre.pruned().len()
        &&& post.timeouts_dead == (if pre.needs_pruning() {
            0
        } else {
            pre.timers_dead()
        })
        &&& if queue.len() == 0 && pre.want_idle@.len() > 0 {
            &&& post.scheduled@ == seq![
                Task { recipient: pre.want_idle@.first(), param: TaskParam::<D>::Idle },
            ]
            &&& post.want_idle@ == pre.want_idle@.drop_first()
        } else {
            &&& post.scheduled@ == queue
            &&& post.want_idle@ == pre.want_idle@
        }
    }

    /// Finish gathering of tasks, after everything that came from the outside was described.
    ///
    /// It is possible this produces no tasks.
    pub fn tasks_gather_finish(&mut self)
        requires
            old(self).wf(),
            no_timeouts(old(self).scheduled@),
        ensures
            final(self).wf(),
            exists|fired: Seq<TimeoutHolder>| #[trigger]
                Self::gathered(*old(self), *final(self), fired),
    {
        let ghost before = *self;
        // Clean up the timer storage, if needed
        self.timers_cleanup();
        let ghost cleaned = *self;
        // Go and grab our timers
        self.tasks_gather_timers();
        let ghost mid = *self;
        let ghost fired = choose|fired: Seq<TimeoutHolder>|
            {
                &&& #[trigger] fires(cleaned.timeouts@, cleaned.now, fired)
                &&& mid.scheduled@ == cleaned.scheduled@ + fired.map_values(timeout_task())
            };
        // If there were no timeouts, add one idle task (we don't want to put too many there,
        // so we don't block the loop for too long.
        if self.scheduled.len() == 0 {
            if let Some(handle) = self.want_idle.pop_front() {
                let ghost popped = *self;
                proof {
                    reveal(idle_wf);
                    assert forall|j: int| 0 <= j < self.want_idle@.len() implies alive_in(
                        gens(self.events@),
                        #[trigger] self.want_idle@[j],
                    ) by {
                        assert(self.want_idle@[j] == mid.want_idle@[j + 1]);
                    }
                    assert forall|i: int, j: int|
                        0 <= i < self.want_idle@.len() && 0 <= j < self.want_idle@.len() && i
                            != j implies self.want_idle@[i] != self.want_idle@[j] by {
                        assert(mid.want_idle@[i + 1] != mid.want_idle@[j + 1]);
                    }
                }
                self.scheduled.push_back(Task { recipient: handle, param: TaskParam::<D>::Idle });
                proof {
                    popped.lemma_scheduled(*self, self.scheduled@.last());
                    assert(self.scheduled@ =~= seq![
                        Task { recipient: handle, param: TaskParam::<D>::Idle },
                    ]);
                }
            }
        }
        assert(Self::gathered(before, *self, fired));
    }

    /// The task is for an event alive, but about an IO the event doesn't have any more.
    pub open spec fn io_lost(&self, task: Task<D>) -> bool {
        match task.param {
            TaskParam::Io(id, _) => !self.owns_io(task.recipient, id),
            _ => false,
        }
    }

    /// Everything the taking of the task with the index, which is for an event alive, changes and
    /// what it results in.
    ///
    /// It's OK to lose the IO in the meantime. A timeout that fired no longer counts as one the
    /// event has.
    pub open spec fn stepped(pre: Self, post: Self, k: int, r: Step<Ev, D>) -> bool {
        let task = pre.scheduled@[k];
        let handle = task.recipient;
        let fired: int = if task.param is Timeout {
            1
        } else {
            0
        };
        &&& post.scheduled@ == pre.scheduled@.skip(k + 1)
        &&& post.events.free@ == pre.events.free@
        &&& if pre.io_lost(task) {
            &&& r == Step::<Ev, D>::Done(Ok(()))
            &&& (post == Loop { scheduled: post.scheduled, ..pre })
        } else {
            &&& (post == Loop {
                scheduled: post.scheduled,
                events: post.events,
                timeouts_fired: post.timeouts_fired,
                ..pre
            })
            &&& post.timeouts_fired == pre.timeouts_fired + fired
            &&& post.events@ == pre.events@.insert(handle.id as int, post.holder(handle))
            &&& (post.holder(handle) == EvHolder {
                event: post.holder(handle).event,
                timeouts: (pre.holder(handle).timeouts - fired) as usize,
                ..pre.holder(handle)
            })
            &&& post.holder(handle).timeouts == pre.holder(handle).timeouts - fired
            &&& post.busy(handle)
            &&& if pre.busy(handle) {
                r == Step::<Ev, D>::Done(Err(Error::Busy))
            } else {
                &&& r matches Step::Call { handle: h, event, param }
                &&& h == handle
                &&& Some(event@) == pre.holder(handle).event@
                &&& event.owner() == handle
                &&& param == task.param
            }
        }
    }

    /// What a step of the loop leads to.
    ///
    /// The tasks before the first one for a living event are dropped and that one is taken. If
    /// there's none such, tasks need to be gathered.
    pub open spec fn ran(pre: Self, post: Self, r: Step<Ev, D>) -> bool {
        match r {
            Step::Gather => {
                &&& forall|i: int|
                    0 <= i < pre.scheduled@.len() ==> !pre.alive(
                        (#[trigger] pre.scheduled@[i]).recipient,
                    )
                &&& post.scheduled@.len() == 0
                &&& (post == Loop { scheduled: post.scheduled, ..pre })
            },
            _ => exists|k: int|
                {
                    &&& 0 <= k < pre.scheduled@.len()
                    &&& pre.alive(pre.scheduled@[k].recipient)
                    &&& forall|i: int|
                        0 <= i < k ==> !pre.alive((#[trigger] pre.scheduled@[i]).recipient)
                    &&& #[trigger] Self::stepped(pre, post, k, r)
                },
        }
    }

    /// Take the next task.
    ///
    /// The first task for a living event is taken from the queue, the tasks of dead events before
    /// it are dropped. This leads to at most one callback of an event.
    fn task_take(&mut self) -> (r: Step<Ev, D>)
        requires
            old(self).wf(),
        ensures
            final(self).wf(),
            Self::ran(*old(self), *final(self), r),
    {
        // We loop until we find a task that is for a living event
        let ghost mut k: int = 0;
        loop
            invariant
                self.wf(),
                *self == (Loop { scheduled: self.scheduled, ..*old(self) }),
                0 <= k <= old(self).scheduled@.len(),
                self.scheduled@ == old(self).scheduled@.skip(k),
                forall|i: int|
                    0 <= i < k ==> !old(self).alive((#[trigger] old(self).scheduled@[i]).recipient),
            decreases old(self).scheduled@.len() - k,
        {
            let ghost before = *self;
            let task: Task<D> = match self.scheduled.pop_front() {
                Some(task) => task,
                None => {
                    // Make sure we have something to do
                    return Step::Gather;
                },
            };
            proof {
                assert(task == old(self).scheduled@[k]);
                assert(self.scheduled@ =~= old(self).scheduled@.skip(k + 1));
                assert(self.scheduled@ =~= before.scheduled@.drop_first());
            }
            if !self.event_alive(task.recipient) {
                proof {
                    before.lemma_other_taken(*self);
                    k = k + 1;
                }
                continue;
            }
            let Task { recipient, param } = task;
            match &param {
                TaskParam::Io(id, _) => {
                    // Check that the IO is still valid
                    if !self.events[recipient.id].ios.contains_key(&id.idx()) {
                        // It's OK to lose the IO in the meantime
                        let r = Step::Done(Ok(()));
                        proof {
                            before.lemma_other_taken(*self);
                            assert(Self::stepped(*old(self), *self, k, r));
                        }
                        return r;
                    }
                    proof {
                        before.lemma_other_taken(*self);
                    }
                },
                TaskParam::Timeout(_) => {
                    proof {
                        before.lemma_timeout_counted();
                    }
                    self.timeouts_fired = self.timeouts_fired + 1;
                    let holder = self.events.index_mut(recipient.id);
                    holder.timeouts = holder.timeouts - 1;
                    proof {
                        before.lemma_timeout_taken(*self);
                    }
                },
                _ => {
                    proof {
                        before.lemma_other_taken(*self);
                    }
                },
            }
            let r = match self.event_take(recipient) {
                Ok(event) => Step::Call { handle: recipient, event, param },
                Err(e) => Step::Done(Err(e)),
            };
            proof {
                assert(self.events@ =~= before.events@.insert(
                    recipient.id as int,
                    self.holder(recipient),
                ));
                assert(Self::stepped(*old(self), *self, k, r));
            }
            return r;
        }
    }

    /// Taking a task that isn't a timeout of a living event keeps the state of the loop consistent.
    proof fn lemma_other_taken(self, post: Self)
        requires
            self.wf(),
            self.scheduled@.len() > 0,
            (post == Loop { scheduled: post.scheduled, ..self }),
            post.scheduled@ == self.scheduled@.drop_first(),
            !(self.scheduled@.first().param is Timeout) || !self.alive(
                self.scheduled@.first().recipient,
            ),
        ensures
            post.wf(),
    {
        let g = gens(self.events@);
        let task = self.scheduled@.first();
        assert(alive_in(g, task.recipient) ==> self.alive(task.recipient));
        assert forall|s: Set<Handle>| #[trigger]
            pending(post.timeouts@, post.scheduled@, s) == pending(
                self.timeouts@,
                self.scheduled@,
                s,
            ) - timeout_weight(task, s) by {
            lemma_queued_first(self.scheduled@, s);
        }
        assert forall|id: TimeoutId| #[trigger]
            waiting(post.timeouts@, post.scheduled@, id) <= waiting(
                self.timeouts@,
                self.scheduled@,
                id,
            ) by {
            lemma_id_first(self.scheduled@, id);
        }
        reveal(ids_wf);
        reveal(timers_wf);
        reveal(fresh_wf);
        assert forall|h: Handle| #[trigger] alive_in(g, h) implies counts(post.events@)[h.id as int]
            == pending(post.timeouts@, post.scheduled@, set![h]) by {
            assert(timeout_weight(task, set![h]) == 0);
        }
        assert(timeout_weight(task, live(g)) == 0);
        assert forall|h: Handle|
            !post.wrapped && h.generation >= post.generation implies #[trigger] pending(
            post.timeouts@,
            post.scheduled@,
            set![h],
        ) == 0 by {
            assert(pending(self.timeouts@, self.scheduled@, set![h]) == 0);
        }
    }

    /// A timeout of a living event at the front of the queue is among those the event has.
    proof fn lemma_timeout_counted(self)
        requires
            self.wf(),
            self.scheduled@.len() > 0,
            self.scheduled@.first().param is Timeout,
            self.alive(self.scheduled@.first().recipient),
        ensures
            self.holder(self.scheduled@.first().recipient).timeouts > 0,
            self.timeouts_fired < usize::MAX,
    {
        reveal(timers_wf);
        let g = gens(self.events@);
        let h = self.scheduled@.first().recipient;
        assert(alive_in(g, h));
        lemma_queued_first(self.scheduled@, set![h]);
        lemma_queued_first(self.scheduled@, live(g));
        assert(counts(self.events@)[h.id as int] == self.holder(h).timeouts);
    }

    /// Taking a timeout of a living event keeps the state of the loop consistent.
    proof fn lemma_timeout_taken(self, post: Self)
        requires
            self.wf(),
            self.scheduled@.len() > 0,
            self.scheduled@.first().param is Timeout,
            self.alive(self.scheduled@.first().recipient),
            (post == Loop {
                scheduled: post.scheduled,
                timeouts_fired: post.timeouts_fired,
                events: post.events,
                ..self
            }),
            post.scheduled@ == self.scheduled@.drop_first(),
            post.timeouts_fired == self.timeouts_fired + 1,
            post.events.wf(),
            ({
                let h = self.scheduled@.first().recipient;
                &&& self.holder(h).timeouts > 0
                &&& post.events@ == self.events@.insert(
                    h.id as int,
                    EvHolder {
                        timeouts: (self.holder(h).timeouts - 1) as usize,
                        ..self.holder(h)
                    },
                )
            }),
        ensures
            post.wf(),
    {
        let g = gens(self.events@);
        let task = self.scheduled@.first();
        let handle = task.recipient;
        assert(alive_in(g, handle));
        assert(gens(post.events@) =~= g);
        assert(io_keys(post.events@) =~= io_keys(self.events@));
        assert(kids(post.events@) =~= kids(self.events@));
        let c = counts(self.events@);
        assert(counts(post.events@) =~= c.insert(
            handle.id as int,
            (c[handle.id as int] - 1) as usize,
        ));
        assert forall|s: Set<Handle>| #[trigger]
            pending(post.timeouts@, post.scheduled@, s) == pending(
                self.timeouts@,
                self.scheduled@,
                s,
            ) - timeout_weight(task, s) by {
            lemma_queued_first(self.scheduled@, s);
        }
        assert forall|id: TimeoutId| #[trigger]
            waiting(post.timeouts@, post.scheduled@, id) <= waiting(
                self.timeouts@,
                self.scheduled@,
                id,
            ) by {
            lemma_id_first(self.scheduled@, id);
        }
        reveal(ids_wf);
        reveal(timers_wf);
        reveal(fresh_wf);
        assert forall|h: Handle| #[trigger] alive_in(g, h) implies counts(post.events@)[h.id as int]
            == pending(post.timeouts@, post.scheduled@, set![h]) by {
            if h != handle {
                assert(h.id != handle.id);
                assert(timeout_weight(task, set![h]) == 0);
            }
        }
        assert(timeout_weight(task, live(g)) == 1);
        assert forall|h: Handle|
            !post.wrapped && h.generation >= post.generation implies #[trigger] pending(
            post.timeouts@,
            post.scheduled@,
            set![h],
        ) == 0 by {
            assert(pending(self.timeouts@, self.scheduled@, set![h]) == 0);
        }
    }

    /// Take one step of the event loop.
    ///
    /// The first task for a living event is taken from the queue, the tasks of dead events before
    /// it are dropped. This leads to at most one callback of an event, see [Loop::event_call].
    ///
    /// If there's nothing in the queue, nothing is returned and tasks need to be gathered first.
    pub fn run_one<F, S>(&mut self, f: F, settle: S) -> (r: Option<Result<(), Error>>) where
        F: FnOnce(&mut Ev, &mut Self, Handle, Callback<D>) -> Result<bool, Error>,
        S: FnOnce(&mut Context, Outcome<Ev, Io>) -> Result<(), Error>,

        requires
            old(self).wf(),
            forall|ev: &mut Ev, l: &mut Self, h: Handle, what: Callback<D>|
                l.wf() && l.busy(h) ==> #[trigger] f.requires((ev, l, h, what)),
            forall|ev: &mut Ev, l: &mut Self, h: Handle, what: Callback<D>, response: Result<
                bool,
                Error,
            >|
                l.wf() && l.busy(h) && #[trigger] f.ensures((ev, l, h, what), response)
                    ==> final(l).wf() && final(l).busy(h),
            forall|c: &mut Context, outcome: Outcome<Ev, Io>| #[trigger]
                settle.requires((c, outcome)),
            forall|c: &mut Context, outcome: Outcome<Ev, Io>, settled: Result<(), Error>|
                !(outcome is Failed) && #[trigger] settle.ensures((c, outcome), settled)
                    ==> settled == Ok::<(), Error>(()),
        ensures
            final(self).wf(),
            match r {
                None => Self::ran(*old(self), *final(self), Step::Gather),
                Some(result) => {
                    ||| Self::ran(*old(self), *final(self), Step::Done(result))
                    ||| exists|
                        mid: Self,
                        handle: Handle,
                        event: StolenData<Ev>,
                        param: TaskParam<D>,
                        ev: &mut Ev,
                        l: &mut Self,
                        response: Result<bool, Error>,
                        end: Self,
                        outcome: Outcome<Ev, Io>,
                        c: &mut Context,
                    |
                        {
                            &&& #[trigger] Self::ran(
                                *old(self),
                                mid,
                                (Step::Call { handle, event, param }),
                            )
                            &&& *l == mid
                            &&& *ev == event@
                            &&& l.wf() && l.busy(handle)
                            &&& #[trigger] f.ensures(
                                (ev, l, handle, Callback::Run(param)),
                                response,
                            )
                            &&& final(l).wf() && final(l).busy(handle)
                            &&& #[trigger] Self::ended(
                                *final(l),
                                end,
                                handle,
                                *final(ev),
                                response,
                                outcome,
                            )
                            &&& *c == end.context
                            &&& #[trigger] settle.ensures((c, outcome), result)
                            &&& response is Ok ==> result == Ok::<(), Error>(())
                            &&& (*final(self) == Loop { context: *final(c), ..end })
                        }
                },
            },
    {
        match self.task_take() {
            Step::Gather => None,
            Step::Done(result) => Some(result),
            Step::Call { handle, event, param } => {
                let ghost step = Step::Call { handle, event, param };
                assert(Self::ran(*old(self), *self, step));
                Some(self.event_run(handle, event, Callback::Run(param), f, settle))
            },
        }
    }

    /// Decide what waiting for the completion of an event shall do next.
    ///
    /// It shall run another step if the result is true and it's done if it is false. The `first`
    /// tells this is the first time it asks. That's when we want to detect a deadlock when an event
    /// that is currently running is recursively waited on, as it can't change later on.
    ///
    /// # Errors
    ///
    /// * `Error::DeadLock` if the event is currently inside a callback.
    pub fn run_until_complete(&self, handle: Handle, first: bool) -> (r: Result<bool, Error>)
        ensures
            r == (if first && self.busy(handle) {
                Err::<bool, Error>(Error::DeadLock)
            } else {
                Ok(self.alive(handle))
            }),
    {
        if !self.event_alive(handle) {
            return Ok(false);
        }
        if first && self.events[handle.id].event.stolen() {
            return Err(Error::DeadLock);
        }
        Ok(true)
    }

    /// Start running of the loop.
    ///
    /// It shall run further steps as long as [Loop::running] is true. What this returns is to be
    /// handed in to [Loop::run_end] once it's over.
    pub fn run(&mut self) -> (outer: bool)
        requires
            old(self).wf(),
        ensures
            final(self).wf(),
            (*final(self) == Loop { active: true, ..*old(self) }),
            outer == old(self).active,
    {
        let outer = self.active;
        self.active = true;
        outer
    }

    /// Shall the innermost run go on?
    pub fn running(&self) -> (r: bool)
        ensures
            r == self.active,
    {
        self.active
    }

    /// The innermost run is over, the one around it (if any) goes on.
    pub fn run_end(&mut self, outer: bool)
        requires
            old(self).wf(),
        ensures
            final(self).wf(),
            (*final(self) == Loop { active: outer, ..*old(self) }),
    {
        self.active = outer;
    }

    /// Stop the event loop.
    ///
    /// If the event loop was started by [Loop::run], stop it (once the current callback
    /// terminates). If there are multiple nested runs, this terminates the innermost one.
    pub fn stop(&mut self)
        requires
            old(self).wf(),
        ensures
            final(self).wf(),
            (*final(self) == Loop { active: false, ..*old(self) }),
    {
        self.active = false;
    }

    /// Return the current time.
    ///
    /// Return the time when the loop last gathered events. This allows for tracking time, but in a
    /// cheaper way than asking for the time every time, as this gets cached for possibly multiple
    /// event callbacks.
    ///
    /// On the other hand, the time may be a bit stale, if the handling of previous callbacks took a
    /// long time.
    pub fn now(&self) -> (r: &i128)
        ensures
            *r == self.now,
    {
        &self.now
    }

    /// Access the context inside the loop.
    ///
    /// Run a closure that gets the (mutable) global context inside the event loop. The result of
    /// the closure is propagated as the result of this method.
    pub fn with_context<R, F>(&mut self, f: F) -> (r: Result<R, Error>) where
        F: FnOnce(&mut Context) -> Result<R, Error>,

        requires
            old(self).wf(),
            forall|context: &mut Context| #[trigger] f.requires((context,)),
        ensures
            final(self).wf(),
            exists|context: &mut Context|
                {
                    &&& #[trigger] f.ensures((context,), r)
                    &&& *context == old(self).context
                    &&& (*final(self) == Loop { context: *final(context), ..*old(self) })
                },
    {
        f(self.context())
    }

    /// Get a context accessor
    pub fn context(&mut self) -> (r: &mut Context)
        requires
            old(self).wf(),
        ensures
            final(self).wf(),
            *r == old(self).context,
            (*final(self) == Loop { context: *final(r), ..*old(self) }),
    {
        &mut self.context
    }
}

/// The result of running the loop until it is empty of events or stopped.
///
/// Getting empty is what we actually want then.
pub fn run_until_empty(r: Result<(), Error>) -> (out: Result<(), Error>)
    ensures
        out == (if r == Err::<(), Error>(Error::Empty) {
            Ok::<(), Error>(())
        } else {
            r
        }),
{
    match r {
        Err(Error::Empty) => Ok(()),
        r => r,
    }
}

} // verus!
