//! What can go wrong.
use vstd::prelude::*;

use nix::Error as NixError;

verus! {

/// The error of `std::io`, carried along and never looked into.
#[verifier::external_type_specification]
#[verifier::external_body]
pub struct ExIoError(std::io::Error);

/// The error of the `nix` crate, carried along and never looked into.
#[verifier::external_type_specification]
#[verifier::external_body]
pub struct ExNixError(NixError);

/// A EveBoros error.
#[derive(Debug)]
pub enum Error {
    /// An embedded IO error from some low-level operation
    Io(std::io::Error),
    /// An error of a system call around signals or child processes
    Nix(NixError),
    /// The default implementation called
    ///
    /// You likely registered for something but haven't implemented the receiver.
    DefaultImpl,
    /// An event waits recursively for itself
    DeadLock,
    /// The referred event is not there
    Missing,
    /// The referred IO is not there or not belonging to the current event
    MissingIo,
    /// The referred event is currently in the middle of a callback and
    /// can't be bothered right now (you know, recursion).
    Busy,
    /// The loop is empty and tries to run
    Empty,
    /// The requested IO is of a different type
    IoType,
    /// The requested type of the message does not match (when extracting)
    MsgType,
    /// Message type not expected, can't send
    MsgUnexpected,
    /// The loop at the other end of the channel no longer exists
    LoopGone,
    /// The background task panicked instead of producing a result
    BackgroundPanicked,
    /// There are no more results of the background task
    IterEnd,
}

impl From<std::io::Error> for Error {
    fn from(e: std::io::Error) -> (r: Self) {
        Error::Io(e)
    }
}

impl vstd::std_specs::convert::FromSpecImpl<std::io::Error> for Error {
    open spec fn obeys_from_spec() -> bool {
        true
    }

    open spec fn from_spec(e: std::io::Error) -> Self {
        Error::Io(e)
    }
}

impl From<NixError> for Error {
    fn from(e: NixError) -> (r: Self) {
        Error::Nix(e)
    }
}

impl vstd::std_specs::convert::FromSpecImpl<NixError> for Error {
    open spec fn obeys_from_spec() -> bool {
        true
    }

    open spec fn from_spec(e: NixError) -> Self {
        Error::Nix(e)
    }
}

} // verus!
