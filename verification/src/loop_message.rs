//! The part of the event loop that takes care of messages and background jobs.
use vstd::prelude::*;

use std::any::TypeId;

use crate::background::Channel;
use crate::error::Error;
use crate::event_loop::{lemma_same_registrations, EvHolder, Loop, Outcome};
use crate::handle::{BackgroundId, Handle, TimeoutId};
use crate::message::{same_type, DeliveryMode, Message, RemoteMessage};
use crate::task::{
    lemma_id_push, lemma_queued_push, pending, waiting, Callback, Task, TaskParam,
};

verus! {

/// What needs to be done with the threads for the background jobs.
#[derive(Debug, Clone, Copy, PartialEq, Eq, Structural)]
pub enum PoolChange {
    /// Start that many threads.
    Start(usize),
    /// Change the number of the threads to this one.
    Resize(usize),
}

impl<Context, Ev, D, Io> Loop<Context, Ev, D, Io> {
    /// The event exists and is willing to accept messages of the type.
    pub open spec fn accepts(&self, handle: Handle, tid: TypeId) -> bool {
        self.alive(handle) && self.holder(handle).expected_messages@.contains(tid)
    }

    /// What the check whether a message can be delivered results in.
    pub open spec fn type_check(&self, handle: Handle, tid: TypeId) -> Result<(), Error> {
        if !self.alive(handle) {
            Err(Error::Missing)
        } else if !self.holder(handle).expected_messages@.contains(tid) {
            Err(Error::MsgUnexpected)
        } else {
            Ok(())
        }
    }

    /// Check the given event exists and is willing to accept this kind of message
    pub fn msg_type_check(&self, handle: Handle, tid: &TypeId) -> (r: Result<(), Error>)
        ensures
            r == self.type_check(handle, *tid),
    {
        if !self.event_alive(handle) {
            return Err(Error::Missing);
        }
        let expected = &self.events[handle.id].expected_messages;
        if lists_type(expected, tid) {
            Ok(())
        } else {
            Err(Error::MsgUnexpected)
        }
    }

    /// Scheduling something else than a timeout keeps the state of the loop consistent.
    pub proof fn lemma_scheduled(self, post: Self, task: Task<D>)
        requires
            self.wf(),
            (post == Loop { scheduled: post.scheduled, ..self }),
            post.scheduled@ == self.scheduled@.push(task),
            !(task.param is Timeout),
        ensures
            post.wf(),
    {
        assert forall|s: Set<Handle>| #[trigger]
            pending(post.timeouts@, post.scheduled@, s) == pending(
                self.timeouts@,
                self.scheduled@,
                s,
            ) by {
            lemma_queued_push(self.scheduled@, task, s);
        }
        assert forall|id: TimeoutId| #[trigger]
            waiting(post.timeouts@, post.scheduled@, id) == waiting(
                self.timeouts@,
                self.scheduled@,
                id,
            ) by {
            lemma_id_push(self.scheduled@, task, id);
        }
        self.lemma_pending_same(post);
    }

    /// The message from another thread is one the recipient gets.
    ///
    /// The results of background jobs are always allowed, other messages are only if the recipient
    /// is alive and accepts the type.
    pub open spec fn passes(&self, message: RemoteMessage<D>) -> bool {
        message.mode is Background || self.accepts(message.recipient, message.real_type)
    }

    /// The delivery of the message was put at the end of the queue. Nothing else changed.
    pub open spec fn scheduled_message(
        pre: Self,
        post: Self,
        handle: Handle,
        message: Message<D>,
    ) -> bool {
        &&& (post == Loop { scheduled: post.scheduled, ..pre })
        &&& post.scheduled@ == pre.scheduled@.push(
            Task { recipient: handle, param: TaskParam::Message(message) },
        )
    }

    /// Send some data to the event asynchronously.
    ///
    /// It does check the event is alive at the time of sending. However, there's no guarantee the
    /// event will not terminate sooner than it receives the message. In such case the message is
    /// simply lost.
    ///
    /// # Errors
    ///
    /// * `Error::Missing` if the event is no longer alive.
    /// * `Error::MsgUnexpected` if the event hasn't declared it is ready to receive this type of
    ///   data.
    pub fn send_impl_sender(
        &mut self,
        from: Option<Handle>,
        handle: Handle,
        data: D,
        tp: TypeId,
    ) -> (r: Result<(), Error>)
        requires
            old(self).wf(),
        ensures
            final(self).wf(),
            r == old(self).type_check(handle, tp),
            r is Err ==> *final(self) == *old(self),
            r is Ok ==> Self::scheduled_message(
                *old(self),
                *final(self),
                handle,
                Message { data, real_type: tp, mode: DeliveryMode::Send(from) },
            ),
    {
        match self.msg_type_check(handle, &tp) {
            Ok(_) => {
                let ghost before = *self;
                let message = Message { data, real_type: tp, mode: DeliveryMode::Send(from) };
                self.scheduled.push_back(
                    Task { recipient: handle, param: TaskParam::Message(message) },
                );
                proof {
                    before.lemma_scheduled(*self, self.scheduled@.last());
                }
                Ok(())
            },
            Err(e) => Err(e),
        }
    }

    /// The delivery of posted data.
    pub open spec fn posted(from: Option<Handle>, data: D, tp: TypeId) -> Callback<D> {
        Callback::Run(
            TaskParam::Message(Message { data, real_type: tp, mode: DeliveryMode::Post(from) }),
        )
    }

    /// Send some data to the event synchronously.
    ///
    /// The `message` callback is called directly from this method, see [Loop::event_call].
    ///
    /// # Errors
    ///
    /// * `Error::Missing` if the event is no longer alive.
    /// * `Error::MsgUnexpected` if the event hasn't declared it is ready to receive this type of
    ///   data.
    /// * `Error::Busy` if the target event is currently in the middle of a callback.
    pub fn post_impl_sender<F, S>(
        &mut self,
        from: Option<Handle>,
        handle: Handle,
        data: D,
        tp: TypeId,
        f: F,
        settle: S,
    ) -> (r: Result<(), Error>) where
        F: FnOnce(&mut Ev, &mut Self, Handle, Callback<D>) -> Result<bool, Error>,
        S: FnOnce(&mut Context, Outcome<Ev, Io>) -> Result<(), Error>,

        requires
            old(self).wf(),
            forall|ev: &mut Ev, l: &mut Self|
                l.wf() && l.busy(handle) ==> #[trigger] f.requires(
                    (ev, l, handle, Self::posted(from, data, tp)),
                ),
            forall|ev: &mut Ev, l: &mut Self, response: Result<bool, Error>|
                l.wf() && l.busy(handle) && #[trigger] f.ensures(
                    (ev, l, handle, Self::posted(from, data, tp)),
                    response,
                ) ==> final(l).wf() && final(l).busy(handle),
            forall|c: &mut Context, outcome: Outcome<Ev, Io>| #[trigger]
                settle.requires((c, outcome)),
            forall|c: &mut Context, outcome: Outcome<Ev, Io>, settled: Result<(), Error>|
                !(outcome is Failed) && #[trigger] settle.ensures((c, outcome), settled)
                    ==> settled == Ok::<(), Error>(()),
        ensures
            final(self).wf(),
            old(self).type_check(handle, tp) is Err ==> {
                &&& r == old(self).type_check(handle, tp)
                &&& *final(self) == *old(self)
            },
            old(self).accepts(handle, tp) && old(self).busy(handle) ==> {
                &&& r == Err::<(), Error>(Error::Busy)
                &&& *final(self) == *old(self)
            },
            old(self).accepts(handle, tp) && !old(self).busy(handle) ==> exists|
                ev: &mut Ev,
                l: &mut Self,
                response: Result<bool, Error>,
                end: Self,
                outcome: Outcome<Ev, Io>,
                c: &mut Context,
            |
                {
                    &&& Self::taken(*old(self), *l, handle, *ev)
                    &&& l.wf() && l.busy(handle)
                    &&& #[trigger] f.ensures((ev, l, handle, Self::posted(from, data, tp)), response)
                    &&& final(l).wf() && final(l).busy(handle)
                    &&& #[trigger] Self::ended(
                        *final(l),
                        end,
                        handle,
                        *final(ev),
                        response,
                        outcome,
                    )
                    &&& *c == end.context
                    &&& #[trigger] settle.ensures((c, outcome), r)
                    &&& response is Ok ==> r == Ok::<(), Error>(())
                    &&& (*final(self) == Loop { context: *final(c), ..end })
                },
    {
        match self.msg_type_check(handle, &tp) {
            Ok(_) => {
                let message = Message { data, real_type: tp, mode: DeliveryMode::Post(from) };
                self.event_call(handle, Callback::Run(TaskParam::Message(message)), f, settle)
            },
            Err(e) => Err(e),
        }
    }

    /// A message came from another thread.
    ///
    /// We need to check the allowed types (because remote channels don't do it). The results of
    /// background jobs are always allowed. What is not allowed is dropped.
    pub fn remote_message(&mut self, message: RemoteMessage<D>)
        requires
            old(self).wf(),
        ensures
            final(self).wf(),
            if old(self).passes(message) {
                Self::scheduled_message(
                    *old(self),
                    *final(self),
                    message.recipient,
                    message.message(),
                )
            } else {
                *final(self) == *old(self)
            },
    {
        let passed = match message.mode {
            DeliveryMode::Background(_) => true,
            _ => match self.msg_type_check(message.recipient, &message.real_type) {
                Ok(_) => true,
                Err(_) => false,
            },
        };
        if passed {
            let ghost before = *self;
            let RemoteMessage { data, real_type, mode, recipient } = message;
            self.scheduled.push_back(
                Task { recipient, param: TaskParam::Message(Message { data, real_type, mode }) },
            );
            proof {
                before.lemma_scheduled(*self, self.scheduled@.last());
            }
        }
    }

    /// Everything the allowing of a type of messages changes.
    pub open spec fn expected(pre: Self, post: Self, handle: Handle, tp: TypeId) -> bool {
        &&& (post == Loop { events: post.events, ..pre })
        &&& post.events.free@ == pre.events.free@
        &&& post.events@ == pre.events@.insert(
            handle.id as int,
            EvHolder {
                expected_messages: post.holder(handle).expected_messages,
                ..pre.holder(handle)
            },
        )
        &&& post.holder(handle).expected_messages@ == (if pre.accepts(handle, tp) {
            pre.holder(handle).expected_messages@
        } else {
            pre.holder(handle).expected_messages@.push(tp)
        })
    }

    /// Allow receiving of messages of the given type.
    ///
    /// Note that you don't have to do this to receive results from background tasks, they get
    /// allowed automatically.
    pub fn expect_message(&mut self, handle: Handle, tp: TypeId)
        requires
            old(self).wf(),
            old(self).alive(handle),
        ensures
            final(self).wf(),
            Self::expected(*old(self), *final(self), handle, tp),
    {
        let ghost before = *self;
        let holder = self.events.index_mut(handle.id);
        if !lists_type(&holder.expected_messages, &tp) {
            holder.expected_messages.push(tp);
        }
        proof {
            assert(before.events@.dom() =~= self.events@.dom());
            lemma_same_registrations(before.events@, self.events@);
        }
    }

    /// Create a communication channel.
    ///
    /// This allows sending of messages from a foreign thread. It is checked that the event is
    /// alive.
    pub fn channel(&self, handle: Handle) -> (r: Result<Channel, Error>)
        ensures
            r == (if self.alive(handle) {
                Ok::<Channel, Error>(Channel { handle })
            } else {
                Err(Error::Missing)
            }),
    {
        if self.event_alive(handle) {
            Ok(Channel { handle })
        } else {
            Err(Error::Missing)
        }
    }

    /// Set the number of threads available for the background tasks.
    ///
    /// Set the number of threads used by the background tasks. At the beginning, no threads are
    /// started. If a background task is submitted before the number of threads is set, single one
    /// is started (the number can be changed later on).
    pub fn pool_thread_count_set(&mut self, cnt: usize) -> (change: PoolChange)
        requires
            cnt > 0,
        ensures
            (*final(self) == Loop { pool_threads: Some(cnt), ..*old(self) }),
            change == (if old(self).pool_threads is None {
                PoolChange::Start(cnt)
            } else {
                PoolChange::Resize(cnt)
            }),
    {
        let change = match self.pool_threads {
            None => PoolChange::Start(cnt),
            Some(_) => PoolChange::Resize(cnt),
        };
        self.pool_threads = Some(cnt);
        change
    }

    /// Submit a task to a background thread
    ///
    /// The id of the task is returned. If there are no threads to run it yet, one is to be started.
    pub fn background_submit(&mut self) -> (r: (BackgroundId, Option<PoolChange>))
        requires
            old(self).wf(),
        ensures
            final(self).wf(),
            r.0.0 == old(self).background_generation,
            r.1 == (if old(self).pool_threads is None {
                Some(PoolChange::Start(1))
            } else {
                None
            }),
            (*final(self) == Loop {
                pool_threads: (if old(self).pool_threads is None {
                    Some(1usize)
                } else {
                    old(self).pool_threads
                }),
                background_generation: final(self).background_generation,
                ..*old(self)
            }),
            final(self).background_generation == (if old(self).background_generation == u64::MAX {
                0
            } else {
                old(self).background_generation + 1
            }),
    {
        let change = if self.pool_threads.is_none() {
            Some(self.pool_thread_count_set(1))
        } else {
            None
        };
        let id = BackgroundId(self.background_generation);
        self.background_generation = self.background_generation.wrapping_add(1);
        (id, change)
    }
}

/// Is the type on the list?
fn lists_type(types: &Vec<TypeId>, tid: &TypeId) -> (r: bool)
    ensures
        r == types@.contains(*tid),
{
    let mut i: usize = 0;
    while i < types.len()
        invariant
            i <= types@.len(),
            forall|j: int| 0 <= j < i ==> #[trigger] types@[j] != *tid,
        decreases types@.len() - i,
    {
        if same_type(&types[i], tid) {
            return true;
        }
        i = i + 1;
    }
    false
}

} // verus!
