//! The identifiers handed out by the loop.
use vstd::prelude::*;

verus! {

/// How many of the smallest tokens the loop keeps for itself.
pub const TOKEN_SHIFT: usize = 2;

/// The token under which the loop watches its channel.
pub const CHANNEL_TOK: usize = 0;

/// The token under which the loop watches for signals.
pub const SIGNAL_TOK: usize = 1;

/// Identifies an event inside the loop.
///
/// The `id` is the slot the event lives in. As slots get reused, the `generation` tells apart the
/// events that lived in the same one.
#[derive(Debug, Clone, Copy, PartialEq, Eq, Hash, Ord, PartialOrd, Structural)]
pub struct Handle {
    pub id: usize,
    pub generation: u64,
}

/// Identifies a timeout.
#[derive(Debug, Clone, Copy, PartialEq, Eq, Hash, Ord, PartialOrd, Structural)]
pub struct TimeoutId(pub u64);

/// An opaque id of a background job
#[derive(Debug, Clone, Copy, PartialEq, Eq, Hash, Ord, PartialOrd, Structural)]
pub struct BackgroundId(pub u64);

/// Identifies a watched IO.
///
/// It is the token under which the IO is watched. The smallest tokens belong to the loop, so no IO
/// is ever watched under these.
#[derive(Debug, Clone, Copy, PartialEq, Eq, Hash, Ord, PartialOrd, Structural)]
pub struct IoId {
    token: usize,
}

impl IoId {
    #[verifier::type_invariant]
    spec fn inv(self) -> bool {
        self.token >= TOKEN_SHIFT
    }

    /// The slot of the IO in the storage of the loop.
    pub closed spec fn index(self) -> int {
        self.token - TOKEN_SHIFT
    }

    /// The IO with the given slot.
    pub(crate) fn new(idx: usize) -> (id: IoId)
        requires
            idx + TOKEN_SHIFT <= usize::MAX,
        ensures
            id.index() == idx,
    {
        IoId { token: idx + TOKEN_SHIFT }
    }

    /// The slot of the IO.
    pub fn idx(&self) -> (idx: usize)
        ensures
            idx == self.index(),
    {
        proof {
            use_type_invariant(self);
        }
        self.token - TOKEN_SHIFT
    }

    /// The token under which the IO is watched.
    pub fn token(&self) -> (token: usize)
        ensures
            token == self.index() + TOKEN_SHIFT,
            token != CHANNEL_TOK,
            token != SIGNAL_TOK,
    {
        proof {
            use_type_invariant(self);
        }
        self.token
    }
}

} // verus!
