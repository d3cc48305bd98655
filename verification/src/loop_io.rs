//! The part of the event loop that takes care of watched IOs.
use vstd::prelude::*;

use std::collections::hash_map::Entry;

use mio::Ready;

use crate::error::Error;
use crate::event_loop::{
    alive_in, counts, gens, io_keys, io_owned, ios_wf, kids, EvHolder, Loop,
};
use crate::handle::{Handle, IoId, CHANNEL_TOK, SIGNAL_TOK, TOKEN_SHIFT};
use crate::task::{Task, TaskParam};

verus! {

broadcast use vstd::std_specs::hash::group_hash_axioms;

/// Where a notification came from.
#[derive(Debug, Clone, Copy, PartialEq, Eq, Structural)]
pub enum Source {
    /// There are messages in the channel of the loop.
    Channel,
    /// Some signals arrived.
    Signal,
    /// An IO of an event is ready, which got scheduled.
    Io,
}

/// What the events registered for stays the same if only the content of an IO changes.
proof fn lemma_io_content<Ev, Io>(
    before: Map<int, EvHolder<Ev, Io>>,
    after: Map<int, EvHolder<Ev, Io>>,
)
    requires
        before.dom() == after.dom(),
        forall|i: int| #[trigger]
            before.dom().contains(i) ==> (after[i] == EvHolder { ios: after[i].ios, ..before[i] })
                && after[i].ios@.dom() == before[i].ios@.dom(),
    ensures
        gens(after) == gens(before),
        counts(after) == counts(before),
        io_keys(after) == io_keys(before),
        kids(after) == kids(before),
{
    assert(gens(after) =~= gens(before));
    assert(counts(after) =~= counts(before));
    assert(io_keys(after) =~= io_keys(before));
    assert(kids(after) =~= kids(before));
}

impl<Context, Ev, D, Io> Loop<Context, Ev, D, Io> {
    /// There is an id left for another IO.
    pub open spec fn io_room(&self) -> bool {
        self.ios.next_index() + TOKEN_SHIFT <= usize::MAX
    }

    /// The IO belongs to the event.
    pub open spec fn owns_io(&self, handle: Handle, id: IoId) -> bool {
        self.alive(handle) && self.holder(handle).ios@.dom().contains(id.index() as usize)
    }

    /// The token under which the next IO shall be watched.
    pub fn io_token(&self) -> (token: usize)
        requires
            self.io_room(),
        ensures
            token == self.ios.next_index() + TOKEN_SHIFT,
    {
        self.ios.peek_index() + TOKEN_SHIFT
    }

    /// Everything the adding of an IO changes.
    pub open spec fn io_added(pre: Self, post: Self, handle: Handle, io: Io, id: IoId) -> bool {
        &&& (post == Loop { events: post.events, ios: post.ios, ..pre })
        &&& id.index() == pre.ios.next_index()
        &&& id.index() + TOKEN_SHIFT <= usize::MAX
        &&& !pre.ios@.dom().contains(id.index())
        &&& post.ios@ == pre.ios@.insert(id.index(), handle)
        &&& post.events.free@ == pre.events.free@
        &&& post.events@ == pre.events@.insert(
            handle.id as int,
            EvHolder { ios: post.holder(handle).ios, ..pre.holder(handle) },
        )
        &&& post.holder(handle).ios@ == pre.holder(handle).ios@.insert(id.index() as usize, io)
    }

    /// Everything the removing of an IO changes.
    pub open spec fn io_removed(pre: Self, post: Self, handle: Handle, id: IoId) -> bool {
        &&& (post == Loop { events: post.events, ios_released: post.ios_released, ..pre })
        &&& post.ios_released@ == pre.ios_released@.insert(id.index() as usize)
        &&& post.events.free@ == pre.events.free@
        &&& post.events@ == pre.events@.insert(
            handle.id as int,
            EvHolder { ios: post.holder(handle).ios, ..pre.holder(handle) },
        )
        &&& post.holder(handle).ios@ == pre.holder(handle).ios@.remove(id.index() as usize)
    }

    /// Only the IO itself changed.
    pub open spec fn io_changed(pre: Self, post: Self, handle: Handle, id: IoId, io: Io) -> bool {
        &&& (post == Loop { events: post.events, ..pre })
        &&& post.events.free@ == pre.events.free@
        &&& post.events@ == pre.events@.insert(
            handle.id as int,
            EvHolder { ios: post.holder(handle).ios, ..pre.holder(handle) },
        )
        &&& post.holder(handle).ios@ == pre.holder(handle).ios@.insert(id.index() as usize, io)
    }

    /// Register any IO
    ///
    /// The caller tried to watch the IO under the token provided by [Loop::io_token] and hands in
    /// the result. If it went well, the IO becomes property of the event.
    pub fn io_register_any(
        &mut self,
        handle: Handle,
        io: Io,
        registered: Result<(), std::io::Error>,
    ) -> (r: Result<IoId, Error>)
        requires
            old(self).wf(),
            old(self).alive(handle),
            old(self).io_room(),
        ensures
            final(self).wf(),
            match registered {
                Ok(_) => r is Ok && Self::io_added(
                    *old(self),
                    *final(self),
                    handle,
                    io,
                    r->Ok_0,
                ),
                Err(e) => {
                    &&& r == Err::<IoId, Error>(Error::Io(e))
                    &&& (*final(self) == Loop { ios: final(self).ios, ..*old(self) })
                    &&& final(self).ios@ == old(self).ios@
                    &&& final(self).ios.next_index() == old(self).ios.next_index()
                },
            },
    {
        let ghost before = *self;
        let idx: usize = self.ios.store(handle);
        match registered {
            Ok(_) => {
                let holder = self.events.index_mut(handle.id);
                let _ = holder.ios.insert(idx, io);
                let id = IoId::new(idx);
                proof {
                    assert(gens(self.events@) =~= gens(before.events@));
                    assert(counts(self.events@) =~= counts(before.events@));
                    assert(kids(self.events@) =~= kids(before.events@));
                    before.lemma_io_added(*self, handle, idx);
                    assert(self.holder(handle).ios@.dom().contains(idx));
                }
                Ok(id)
            },
            Err(e) => {
                // If it fails, we want to get rid of the stored io first before returning the error
                let _ = self.ios.release(idx);
                assert(self.ios@ =~= before.ios@);
                Err(Error::from(e))
            },
        }
    }

    /// The ownership of the IOs stays consistent when one is added.
    proof fn lemma_io_added(self, post: Self, handle: Handle, idx: usize)
        requires
            self.wf(),
            self.alive(handle),
            !self.ios@.dom().contains(idx as int),
            post.ios@ == self.ios@.insert(idx as int, handle),
            post.ios_released == self.ios_released,
            gens(post.events@) == gens(self.events@),
            post.events@.dom().contains(handle.id as int),
            post.events@ == self.events@.insert(handle.id as int, post.holder(handle)),
            post.holder(handle).ios@.dom() == self.holder(handle).ios@.dom().insert(idx),
        ensures
            ios_wf(
                gens(post.events@),
                io_keys(post.events@),
                post.ios@,
                post.ios_released@,
            ),
    {
        reveal(ios_wf);
        let g = gens(self.events@);
        let keys = io_keys(self.events@);
        let keys2 = io_keys(post.events@);
        assert(keys2 =~= keys.insert(handle.id as int, keys[handle.id as int].insert(idx)));
        assert(alive_in(g, handle));
        assert forall|k: usize| post.ios@.dom().contains(k as int) implies (
        (#[trigger] post.ios_released@.contains(k)) <==> !io_owned(g, keys2, post.ios@, k)) by {
            if k == idx {
                assert(!self.ios_released@.contains(k));
            } else {
                assert(self.ios_released@.contains(k) <==> !io_owned(g, keys, self.ios@, k));
            }
        }
        assert forall|h: Handle, k: usize|
            alive_in(g, h) && #[trigger] keys2[h.id as int].contains(
                k,
            ) implies post.ios@.dom().contains(k as int) && post.ios@[k as int] == h by {
            if k == idx {
                if h != handle {
                    assert(keys[h.id as int].contains(k));
                }
            } else {
                assert(keys[h.id as int].contains(k));
            }
        }
    }

    /// The slot of an IO of the event.
    ///
    /// # Errors
    ///
    /// * `Error::MissingIo` if the IO is not there or doesn't belong to the event.
    pub fn io_idx(&self, handle: Handle, id: IoId) -> (r: Result<usize, Error>)
        requires
            self.alive(handle),
        ensures
            match r {
                Ok(idx) => self.owns_io(handle, id) && idx == id.index(),
                Err(e) => !self.owns_io(handle, id) && e == Error::MissingIo,
            },
    {
        let idx: usize = id.idx();
        if self.events[handle.id].ios.contains_key(&idx) {
            Ok(idx)
        } else {
            Err(Error::MissingIo)
        }
    }

    /// The IO whose watching shall be modified.
    pub fn io_update(&self, handle: Handle, id: IoId) -> (r: Result<&Io, Error>)
        requires
            self.alive(handle),
        ensures
            match r {
                Ok(io) => self.owns_io(handle, id) && *io == self.holder(
                    handle,
                ).ios@[id.index() as usize],
                Err(e) => !self.owns_io(handle, id) && e == Error::MissingIo,
            },
    {
        let idx: usize = match self.io_idx(handle, id) {
            Ok(idx) => idx,
            Err(e) => return Err(e),
        };
        match self.events[handle.id].ios.get(&idx) {
            Some(io) => Ok(io),
            None => Err(Error::MissingIo),
        }
    }

    /// Stop watching the given IO.
    ///
    /// The IO is returned, to be taken out of the watching.
    ///
    /// Note that we still keep the ID held and will release it only before we gather new tasks.
    /// This way we can prevent the ID being reused and get triggered by an old event.
    pub fn io_remove(&mut self, handle: Handle, id: IoId) -> (r: Result<Io, Error>)
        requires
            old(self).wf(),
            old(self).alive(handle),
        ensures
            final(self).wf(),
            match r {
                Ok(io) => {
                    &&& old(self).owns_io(handle, id)
                    &&& io == old(self).holder(handle).ios@[id.index() as usize]
                    &&& Self::io_removed(*old(self), *final(self), handle, id)
                },
                Err(e) => {
                    &&& !old(self).owns_io(handle, id)
                    &&& e == Error::MissingIo
                    &&& *final(self) == *old(self)
                },
            },
    {
        let ghost before = *self;
        let idx: usize = match self.io_idx(handle, id) {
            Ok(idx) => idx,
            Err(e) => return Err(e),
        };
        let holder = self.events.index_mut(handle.id);
        match holder.ios.remove(&idx) {
            Some(io) => {
                let _ = self.ios_released.insert(idx);
                proof {
                    assert(gens(self.events@) =~= gens(before.events@));
                    assert(counts(self.events@) =~= counts(before.events@));
                    assert(kids(self.events@) =~= kids(before.events@));
                    before.lemma_io_removed(*self, handle, idx);
                }
                Ok(io)
            },
            None => {
                assert(false);
                Err(Error::MissingIo)
            },
        }
    }

    /// The ownership of the IOs stays consistent when one is removed.
    proof fn lemma_io_removed(self, post: Self, handle: Handle, idx: usize)
        requires
            self.wf(),
            self.alive(handle),
            self.holder(handle).ios@.dom().contains(idx),
            post.ios == self.ios,
            post.ios_released@ == self.ios_released@.insert(idx),
            gens(post.events@) == gens(self.events@),
            post.events@ == self.events@.insert(handle.id as int, post.holder(handle)),
            post.holder(handle).ios@.dom() == self.holder(handle).ios@.dom().remove(idx),
        ensures
            ios_wf(
                gens(post.events@),
                io_keys(post.events@),
                post.ios@,
                post.ios_released@,
            ),
    {
        reveal(ios_wf);
        let g = gens(self.events@);
        let keys = io_keys(self.events@);
        let keys2 = io_keys(post.events@);
        assert(keys2 =~= keys.insert(handle.id as int, keys[handle.id as int].remove(idx)));
        assert(alive_in(g, handle));
        assert(keys[handle.id as int].contains(idx));
        assert forall|k: usize| post.ios@.dom().contains(k as int) implies (
        (#[trigger] post.ios_released@.contains(k)) <==> !io_owned(g, keys2, post.ios@, k)) by {
            assert(self.ios_released@.contains(k) <==> !io_owned(g, keys, self.ios@, k));
        }
        assert forall|h: Handle, k: usize|
            alive_in(g, h) && #[trigger] keys2[h.id as int].contains(
                k,
            ) implies post.ios@.dom().contains(k as int) && post.ios@[k as int] == h by {
            assert(keys[h.id as int].contains(k));
        }
        assert forall|k: usize| #[trigger]
            post.ios_released@.contains(k) implies post.ios@.dom().contains(k as int) by {
            if k != idx {
                assert(self.ios_released@.contains(k));
            }
        }
    }

    /// Borrow the IO
    ///
    /// # Errors
    ///
    /// * `Error::MissingIo` if the IO is not there or doesn't belong to the event.
    pub fn io_mut(&mut self, handle: Handle, id: IoId) -> (r: Result<&mut Io, Error>)
        requires
            old(self).wf(),
            old(self).alive(handle),
        ensures
            final(self).wf(),
            match r {
                Ok(io) => {
                    &&& old(self).owns_io(handle, id)
                    &&& *io == old(self).holder(handle).ios@[id.index() as usize]
                    &&& Self::io_changed(*old(self), *final(self), handle, id, *final(io))
                },
                Err(e) => {
                    &&& !old(self).owns_io(handle, id)
                    &&& e == Error::MissingIo
                    &&& *final(self) == *old(self)
                },
            },
    {
        let idx: usize = match self.io_idx(handle, id) {
            Ok(idx) => idx,
            Err(e) => return Err(e),
        };
        proof {
            // Whatever the caller does with the IO, the registrations stay the same
            let events = self.events@;
            let holder = self.holder(handle);
            assert forall|after: EvHolder<Ev, Io>, io: Io|
                #![trigger events.insert(handle.id as int, after), holder.ios@.insert(idx, io)]
                after.ios@ == holder.ios@.insert(idx, io) && after == (EvHolder {
                    ios: after.ios,
                    ..holder
                }) implies {
                let changed = events.insert(handle.id as int, after);
                &&& gens(changed) == gens(events)
                &&& counts(changed) == counts(events)
                &&& io_keys(changed) == io_keys(events)
                &&& kids(changed) == kids(events)
            } by {
                let changed = events.insert(handle.id as int, after);
                assert(changed.dom() =~= events.dom());
                assert(after.ios@.dom() =~= holder.ios@.dom());
                lemma_io_content(events, changed);
            }
        }
        let holder = self.events.index_mut(handle.id);
        match holder.ios.entry(idx) {
            Entry::Occupied(entry) => {
                Ok(entry.into_mut())
            },
            Entry::Vacant(_) => {
                assert(false);
                Err(Error::MissingIo)
            },
        }
    }

    /// Access the watched IO.
    ///
    /// The closure gets a mutable access to the IO of the event. It returns nothing if the IO is of
    /// a different type than it wants, otherwise its result is propagated.
    ///
    /// # Errors
    ///
    /// * `Error::MissingIo` if the IO is not there or doesn't belong to the event.
    /// * `Error::IoType` if the IO is of a different type.
    pub fn with_io<R, F>(&mut self, handle: Handle, id: IoId, f: F) -> (r: Result<R, Error>) where
        F: FnOnce(&mut Io) -> Option<Result<R, Error>>,

        requires
            old(self).wf(),
            old(self).alive(handle),
            forall|io: &mut Io| #[trigger] f.requires((io,)),
        ensures
            final(self).wf(),
            !old(self).owns_io(handle, id) ==> {
                &&& r == Err::<R, Error>(Error::MissingIo)
                &&& *final(self) == *old(self)
            },
            old(self).owns_io(handle, id) ==> exists|io: &mut Io, found: Option<Result<R, Error>>|
                {
                    &&& #[trigger] f.ensures((io,), found)
                    &&& *io == old(self).holder(handle).ios@[id.index() as usize]
                    &&& r == (match found {
                        Some(result) => result,
                        None => Err(Error::IoType),
                    })
                    &&& Self::io_changed(*old(self), *final(self), handle, id, *final(io))
                },
    {
        match self.io_mut(handle, id) {
            Ok(io) => match f(io) {
                Some(result) => result,
                None => Err(Error::IoType),
            },
            Err(e) => Err(e),
        }
    }

    /// Is the token of an IO that is watched or was so until a while ago?
    pub fn io_known(&self, token: usize) -> (r: bool)
        ensures
            r == (token >= TOKEN_SHIFT && self.ios@.dom().contains(token - TOKEN_SHIFT)),
    {
        token >= TOKEN_SHIFT && self.ios.valid(token - TOKEN_SHIFT)
    }

    /// Gather the IO-based task the notification with the token stands for.
    ///
    /// The IOs of events get scheduled. The things the loop itself watches need to be read, which
    /// is left up to the caller.
    pub fn tasks_gather_io(&mut self, token: usize, ready: Ready) -> (source: Source)
        requires
            old(self).wf(),
            token != CHANNEL_TOK && token != SIGNAL_TOK ==> old(self).ios@.dom().contains(
                token - TOKEN_SHIFT,
            ),
        ensures
            final(self).wf(),
            token == CHANNEL_TOK ==> source == Source::Channel,
            token == SIGNAL_TOK ==> source == Source::Signal,
            token != CHANNEL_TOK && token != SIGNAL_TOK ==> {
                let task = final(self).scheduled@.last();
                &&& source == Source::Io
                &&& (*final(self) == Loop { scheduled: final(self).scheduled, ..*old(self) })
                &&& final(self).scheduled@ == old(self).scheduled@.push(task)
                &&& task.recipient == old(self).ios@[token - TOKEN_SHIFT]
                &&& task.param matches TaskParam::Io(id, state)
                &&& id.index() == token - TOKEN_SHIFT
                &&& state == ready
            },
            source != Source::Io ==> *final(self) == *old(self),
    {
        if token == CHANNEL_TOK {
            Source::Channel
        } else if token == SIGNAL_TOK {
            Source::Signal
        } else {
            let ghost before = *self;
            let idx: usize = token - TOKEN_SHIFT;
            // We should not get any invalid events or IOs now, we didn't fire any events yet
            let task = Task {
                recipient: self.ios[idx],
                param: TaskParam::Io(IoId::new(idx), ready),
            };
            let ghost added = task;
            self.scheduled.push_back(task);
            proof {
                before.lemma_scheduled(*self, added);
            }
            Source::Io
        }
    }
}

} // verus!
