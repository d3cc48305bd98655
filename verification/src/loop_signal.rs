//! The part of the event loop that takes care of signals, child processes and idle events.
use vstd::prelude::*;

use crate::error::Error;
use crate::event_loop::{
    alive_in, children_wf, counts, gens, idle_wf, io_keys, kids, lemma_filter_unique, signals_wf,
    EvHolder, Loop,
};
use crate::handle::Handle;
use crate::idle::{differs, without};
use crate::signal::{
    lemma_signal_num, signal_refusal, ChildExit, ChildStatus, Signal, SignalRead, SignalStep, NSIG,
};
use crate::task::{Task, TaskParam};

verus! {

broadcast use vstd::std_specs::hash::group_hash_axioms;

/// The pair says someone wants the signal with the number.
pub open spec fn wants(number: i32) -> spec_fn((i32, Handle)) -> bool {
    |p: (i32, Handle)| p.0 == number
}

/// The task of telling the recipient about the signal.
pub open spec fn signal_task<D>(signal: Signal) -> spec_fn((i32, Handle)) -> Task<D> {
    |p: (i32, Handle)| Task { recipient: p.1, param: TaskParam::Signal(signal) }
}

/// The tasks of telling everyone who wants the signal, in the order in which they asked for it.
pub open spec fn signal_tasks<D>(recipients: Seq<(i32, Handle)>, signal: Signal) -> Seq<Task<D>> {
    recipients.filter(wants(signal.num())).map_values(signal_task(signal))
}

impl<Context, Ev, D, Io> Loop<Context, Ev, D, Io> {
    /// Let the loop handle the given signal (in addition to any others it already handles).
    ///
    /// If this is something new, the signals of [Loop::signal_mask] need to be blocked and listened
    /// to. Calling this when the signal is already enabled in this event loop is a no-op.
    ///
    /// If more than one event registers for the signal, it is broadcasted between them. Similarly,
    /// if no event wants it, the signal is lost.
    pub fn signal_enable(&mut self, signal: Signal) -> (changed: bool)
        requires
            old(self).wf(),
        ensures
            final(self).wf(),
            changed == !old(self).signal_mask@.contains(signal.num()),
            (*final(self) == Loop { signal_mask: final(self).signal_mask, ..*old(self) }),
            final(self).signal_mask@ == old(self).signal_mask@.insert(signal.num()),
            !changed ==> *final(self) == *old(self),
    {
        if self.signal_mask.contains(signal) {
            // Already registered, do nothing
            assert(self.signal_mask@ =~= self.signal_mask@.insert(signal.num()));
            return false;
        }
        self.signal_mask.add(signal);
        true
    }

    /// Disable receiving of the given signal.
    ///
    /// If it was enabled, only the signals of [Loop::signal_mask] need to be listened to from now
    /// on and the signal unblocked.
    ///
    /// This does not unregister the events that registered for the signal. They just don't get the
    /// signal notification any more.
    pub fn signal_disable(&mut self, signal: Signal) -> (changed: bool)
        requires
            old(self).wf(),
        ensures
            final(self).wf(),
            changed == old(self).signal_mask@.contains(signal.num()),
            (*final(self) == Loop { signal_mask: final(self).signal_mask, ..*old(self) }),
            final(self).signal_mask@ == old(self).signal_mask@.remove(signal.num()),
            !changed ==> *final(self) == *old(self),
    {
        if !self.signal_mask.contains(signal) {
            // Not there, nothing to disable
            assert(self.signal_mask@ =~= self.signal_mask@.remove(signal.num()));
            return false;
        }
        self.signal_mask.remove(signal);
        true
    }

    /// Everything the showing of interest in a signal changes.
    pub open spec fn signal_added(pre: Self, post: Self, handle: Handle, signal: Signal) -> bool {
        &&& (post == Loop { signal_recipients: post.signal_recipients, ..pre })
        &&& post.signal_recipients@ == (if pre.signal_recipients@.contains(
            (signal.num(), handle),
        ) {
            pre.signal_recipients@
        } else {
            pre.signal_recipients@.push((signal.num(), handle))
        })
    }

    /// Show interest in receiving the signal, which is already enabled.
    pub fn signal(&mut self, handle: Handle, signal: Signal)
        requires
            old(self).wf(),
            old(self).alive(handle),
            old(self).signal_mask@.contains(signal.num()),
        ensures
            final(self).wf(),
            Self::signal_added(*old(self), *final(self), handle, signal),
    {
        let number: i32 = signal.number();
        let mut i: usize = 0;
        while i < self.signal_recipients.len()
            invariant
                *self == *old(self),
                self.wf(),
                number == signal.num(),
                i <= self.signal_recipients@.len(),
                forall|j: int|
                    0 <= j < i ==> #[trigger] self.signal_recipients@[j] != (number, handle),
            decreases self.signal_recipients@.len() - i,
        {
            let p = self.signal_recipients[i];
            if p.0 == number && p.1 == handle {
                assert(self.signal_recipients@[i as int] == (number, handle));
                return;
            }
            i = i + 1;
        }
        self.signal_recipients.push((number, handle));
        proof {
            reveal(signals_wf);
            assert(alive_in(gens(self.events@), handle));
        }
    }

    /// A signal arrived, tell everyone who is interested.
    ///
    /// If it is the one about children, they need to be gathered first by
    /// [Loop::children_gather].
    pub fn signal_deliver(&mut self, signal: Signal)
        requires
            old(self).wf(),
        ensures
            final(self).wf(),
            (*final(self) == Loop { scheduled: final(self).scheduled, ..*old(self) }),
            final(self).scheduled@ == old(self).scheduled@ + signal_tasks(
                old(self).signal_recipients@,
                signal,
            ),
    {
        let number: i32 = signal.number();
        let mut i: usize = 0;
        proof {
            reveal(Seq::filter);
            assert(self.scheduled@ =~= old(self).scheduled@ + signal_tasks(
                self.signal_recipients@.take(0),
                signal,
            ));
        }
        while i < self.signal_recipients.len()
            invariant
                self.wf(),
                *self == (Loop { scheduled: self.scheduled, ..*old(self) }),
                number == signal.num(),
                i <= self.signal_recipients@.len(),
                self.scheduled@ == old(self).scheduled@ + signal_tasks(
                    self.signal_recipients@.take(i as int),
                    signal,
                ),
            decreases self.signal_recipients@.len() - i,
        {
            let p = self.signal_recipients[i];
            let ghost before = *self;
            let ghost seen = self.signal_recipients@.take(i as int);
            proof {
                reveal(Seq::filter);
                assert(self.signal_recipients@.take(i + 1).drop_last() =~= seen);
            }
            if p.0 == number {
                let task = Task { recipient: p.1, param: TaskParam::Signal(signal) };
                let ghost added = task;
                self.scheduled.push_back(task);
                proof {
                    before.lemma_scheduled(*self, added);
                    assert(self.scheduled@ =~= old(self).scheduled@ + signal_tasks(
                        self.signal_recipients@.take(i + 1),
                        signal,
                    ));
                }
            }
            i = i + 1;
        }
        assert(self.signal_recipients@.take(i as int) =~= self.signal_recipients@);
    }

    /// A signal was read.
    ///
    /// It is delivered right away, except for the one about children. These need to be gathered by
    /// [Loop::children_gather] first, the signal gets delivered by [Loop::signal_deliver]
    /// afterwards.
    pub fn signal_read(&mut self, read: SignalRead) -> (r: Result<SignalStep, Error>)
        requires
            old(self).wf(),
        ensures
            final(self).wf(),
            match read {
                SignalRead::Nothing => {
                    &&& r == Ok::<SignalStep, Error>(SignalStep::Stop)
                    &&& *final(self) == *old(self)
                },
                SignalRead::Failed(e) => {
                    &&& r == Err::<SignalStep, Error>(Error::Nix(e))
                    &&& *final(self) == *old(self)
                },
                SignalRead::Number(number) => if !(0 < number < NSIG) {
                    &&& r == Err::<SignalStep, Error>(Error::Nix(signal_refusal(number)))
                    &&& *final(self) == *old(self)
                } else if number == old(self).sigchld.num() {
                    &&& r == Ok::<SignalStep, Error>(SignalStep::Children(old(self).sigchld))
                    &&& *final(self) == *old(self)
                } else {
                    &&& r == Ok::<SignalStep, Error>(SignalStep::More)
                    &&& (*final(self) == Loop { scheduled: final(self).scheduled, ..*old(self) })
                    &&& exists|signal: Signal|
                        {
                            &&& #[trigger] signal.num() == number
                            &&& final(self).scheduled@ == old(self).scheduled@ + signal_tasks(
                                old(self).signal_recipients@,
                                signal,
                            )
                        }
                },
            },
    {
        match read {
            // No more signals for now, return later
            SignalRead::Nothing => Ok(SignalStep::Stop),
            SignalRead::Failed(e) => Err(Error::from(e)),
            SignalRead::Number(number) => match Signal::from_c_int(number) {
                Ok(signal) => {
                    proof {
                        lemma_signal_num(signal, self.sigchld);
                    }
                    if signal == self.sigchld {
                        Ok(SignalStep::Children(signal))
                    } else {
                        self.signal_deliver(signal);
                        Ok(SignalStep::More)
                    }
                },
                Err(e) => Err(e),
            },
        }
    }

    /// Everything the tracking of a child changes.
    pub open spec fn child_added(pre: Self, post: Self, handle: Handle, pid: i32) -> bool {
        &&& (post == Loop { events: post.events, children: post.children, ..pre })
        &&& post.children@ == pre.children@.insert(pid, handle)
        &&& post.events.free@ == pre.events.free@
        &&& post.events@ == pre.events@.insert(
            handle.id as int,
            EvHolder { children: post.holder(handle).children, ..pre.holder(handle) },
        )
        &&& post.holder(handle).children@ == pre.holder(handle).children@.insert(pid)
    }

    /// Everything the end of a tracked child changes.
    pub open spec fn child_exited(pre: Self, post: Self, pid: i32, exit: ChildExit) -> bool {
        let handle = pre.children@[pid];
        &&& pre.children@.dom().contains(pid)
        &&& pre.alive(handle)
        &&& (post == Loop {
            events: post.events,
            children: post.children,
            scheduled: post.scheduled,
            ..pre
        })
        &&& post.children@ == pre.children@.remove(pid)
        &&& post.events.free@ == pre.events.free@
        &&& post.events@ == pre.events@.insert(
            handle.id as int,
            EvHolder { children: post.holder(handle).children, ..pre.holder(handle) },
        )
        &&& post.holder(handle).children@ == pre.holder(handle).children@.remove(pid)
        &&& post.scheduled@ == pre.scheduled@.push(
            Task { recipient: handle, param: TaskParam::Child(pid, exit) },
        )
    }

    /// Track a child process.
    ///
    /// It is not allowed to track the same child by multiple events. The signal about children is
    /// already enabled.
    pub fn child(&mut self, handle: Handle, pid: i32)
        requires
            old(self).wf(),
            old(self).alive(handle),
            old(self).signal_mask@.contains(old(self).sigchld.num()),
            !old(self).children@.dom().contains(pid),
        ensures
            final(self).wf(),
            Self::child_added(*old(self), *final(self), handle, pid),
    {
        let ghost before = *self;
        let _ = self.children.insert(pid, handle);
        let holder = self.events.index_mut(handle.id);
        let _ = holder.children.insert(pid);
        proof {
            let g = gens(before.events@);
            let known = kids(before.events@);
            let known2 = kids(self.events@);
            assert(gens(self.events@) =~= g);
            assert(counts(self.events@) =~= counts(before.events@));
            assert(io_keys(self.events@) =~= io_keys(before.events@));
            assert(known2 =~= known.insert(
                handle.id as int,
                known[handle.id as int].insert(pid),
            ));
            assert(alive_in(g, handle));
            assert(children_wf(g, known2, self.children@)) by {
                reveal(children_wf);
                assert forall|p: i32| #[trigger] self.children@.dom().contains(p) implies alive_in(
                    g,
                    self.children@[p],
                ) && known2[self.children@[p].id as int].contains(p) by {
                    if p != pid {
                        assert(before.children@.dom().contains(p));
                    }
                }
                assert forall|h: Handle, p: i32|
                    alive_in(g, h) && #[trigger] known2[h.id as int].contains(
                        p,
                    ) implies self.children@.dom().contains(p) && self.children@[p] == h by {
                    if p != pid || h != handle {
                        assert(known[h.id as int].contains(p));
                    }
                }
            }
        }
    }

    /// Is the child process already tracked by someone?
    pub fn child_tracked(&self, pid: i32) -> (r: bool)
        ensures
            r == self.children@.dom().contains(pid),
    {
        self.children.contains_key(&pid)
    }

    /// Gather a dead child process
    ///
    /// The caller asks the system for any child process that terminated, without blocking, and
    /// hands in the answer. It goes on as long as the result is true.
    ///
    /// The event that tracks the child is told about it. If there's none, nothing happens.
    pub fn children_gather(&mut self, status: ChildStatus) -> (r: Result<bool, Error>)
        requires
            old(self).wf(),
        ensures
            final(self).wf(),
            r == (match status {
                ChildStatus::Again | ChildStatus::StillAlive | ChildStatus::NoChildren => Ok::<
                    bool,
                    Error,
                >(false),
                ChildStatus::Failed(e) => Err(Error::Nix(e)),
                ChildStatus::Exit(_, _) | ChildStatus::Other => Ok(true),
            }),
            match status {
                ChildStatus::Exit(pid, exit) => if old(self).children@.dom().contains(pid) {
                    Self::child_exited(*old(self), *final(self), pid, exit)
                } else {
                    &&& (*final(self) == Loop { children: final(self).children, ..*old(self) })
                    &&& final(self).children@ == old(self).children@
                },
                _ => *final(self) == *old(self),
            },
    {
        match status {
            // No more children terminated, done
            ChildStatus::Again => Ok(false),
            ChildStatus::StillAlive => Ok(false),
            // There are no more children at all
            ChildStatus::NoChildren => Ok(false),
            // Propagate other errors
            ChildStatus::Failed(e) => Err(Error::from(e)),
            ChildStatus::Exit(pid, exit) => {
                let ghost before = *self;
                match self.children.remove(&pid) {
                    Some(handle) => {
                        // The event must be alive, otherwise the handle would not be stored there,
                        // we remove them right away.
                        proof {
                            reveal(children_wf);
                            assert(before.children@.dom().contains(pid));
                            assert(before.alive(handle));
                        }
                        let holder = self.events.index_mut(handle.id);
                        let _ = holder.children.remove(&pid);
                        let ghost unlinked = *self;
                        proof {
                            before.lemma_child_gone(*self, handle, pid);
                        }
                        self.scheduled.push_back(
                            Task { recipient: handle, param: TaskParam::Child(pid, exit) },
                        );
                        proof {
                            unlinked.lemma_scheduled(*self, self.scheduled@.last());
                        }
                    },
                    None => {
                        // No event waiting for it, throw it away
                        assert(self.children@ =~= before.children@);
                    },
                }
                Ok(true)
            },
            // Other status changes are not interesting to us
            ChildStatus::Other => Ok(true),
        }
    }

    /// Forgetting a child by both the loop and the event keeps the state of the loop consistent.
    proof fn lemma_child_gone(self, post: Self, handle: Handle, pid: i32)
        requires
            self.wf(),
            self.children@.dom().contains(pid),
            self.children@[pid] == handle,
            (post == Loop { events: post.events, children: post.children, ..self }),
            post.events.wf(),
            post.children@ == self.children@.remove(pid),
            post.events@ == self.events@.insert(
                handle.id as int,
                EvHolder { children: post.holder(handle).children, ..self.holder(handle) },
            ),
            self.alive(handle),
            post.holder(handle).children@ == self.holder(handle).children@.remove(pid),
        ensures
            post.wf(),
    {
        let g = gens(self.events@);
        let known = kids(self.events@);
        let known2 = kids(post.events@);
        assert(gens(post.events@) =~= g);
        assert(counts(post.events@) =~= counts(self.events@));
        assert(io_keys(post.events@) =~= io_keys(self.events@));
        assert(known2 =~= known.insert(handle.id as int, known[handle.id as int].remove(pid)));
        assert(alive_in(g, handle));
        assert(children_wf(g, known2, post.children@)) by {
            reveal(children_wf);
            assert forall|p: i32| #[trigger] post.children@.dom().contains(p) implies alive_in(
                g,
                post.children@[p],
            ) && known2[post.children@[p].id as int].contains(p) by {
                assert(self.children@.dom().contains(p));
            }
            assert forall|h: Handle, p: i32|
                alive_in(g, h) && #[trigger] known2[h.id as int].contains(
                    p,
                ) implies post.children@.dom().contains(p) && post.children@[p] == h by {
                assert(known[h.id as int].contains(p));
            }
        }
    }

    /// Everything the wish to be called when the loop is idle changes.
    pub open spec fn idle_added(pre: Self, post: Self, handle: Handle) -> bool {
        &&& (post == Loop { want_idle: post.want_idle, ..pre })
        &&& post.want_idle@ == without(pre.want_idle@, handle).push(handle)
    }

    /// Run code when the loop is idle.
    ///
    /// The event gets called once the event loop has nothing better to do. It is possible to
    /// register only one idle callback at a time.
    pub fn idle(&mut self, handle: Handle)
        requires
            old(self).wf(),
            old(self).alive(handle),
        ensures
            final(self).wf(),
            Self::idle_added(*old(self), *final(self), handle),
    {
        let ghost before = self.want_idle@;
        self.want_idle.push(handle);
        proof {
            reveal(idle_wf);
            let g = gens(self.events@);
            let f = differs(handle);
            let rest = without(before, handle);
            lemma_filter_unique(before, f);
            assert(alive_in(g, handle));
            assert forall|j: int| 0 <= j < rest.len() implies alive_in(g, #[trigger] rest[j])
                && rest[j] != handle by {
                assert(f(before.filter(f)[j]));
                let i = choose|i: int| 0 <= i < before.len() && before[i] == rest[j];
                assert(alive_in(g, before[i]));
            }
        }
    }
}

} // verus!
