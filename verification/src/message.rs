//! The messages sent to events.
use vstd::prelude::*;

use crate::error::Error;
use crate::handle::{BackgroundId, Handle};

verus! {

/// The identifier of a type, as `std::any` knows it.
#[verifier::external_type_specification]
#[verifier::external_body]
pub struct ExTypeId(std::any::TypeId);

/// Are these the same type?
///
/// This calls `==` on two `std::any::TypeId`s. It claims that the comparison tells whether they are
/// the same identifier.
#[verifier::external_body]
pub(crate) fn same_type(a: &std::any::TypeId, b: &std::any::TypeId) -> (r: bool)
    ensures
        r == (*a == *b),
{
    a == b
}

/// The cause of an arriving message.
///
/// This specifies what the reason for the current [Message] is, or who sent it.
#[derive(Debug, Clone, Copy, PartialEq, Eq, Hash, Ord, PartialOrd, Structural)]
pub enum DeliveryMode {
    /// The message was generated by a post.
    ///
    /// The parameter specifies what event sent it, if any.
    Post(Option<Handle>),
    /// The message was generated by a send.
    ///
    /// The parameter specifies what event sent it, if any.
    Send(Option<Handle>),
    /// This wasn't sent directly, but is a result of a background job. The ID of the job is the
    /// parameter.
    Background(BackgroundId),
    /// Sent through a channel, possibly from another thread.
    Remote,
}

/// Message to an event.
///
/// This is what an event gets when someone sends (or posts) it some data. It can be examined and
/// the corresponding data type extracted.
#[derive(Debug)]
pub struct Message<D> {
    /// The payload.
    pub data: D,
    /// The type of what is inside the payload.
    pub real_type: std::any::TypeId,
    /// How the message originated.
    pub mode: DeliveryMode,
}

/// What extracting data of the wrong type leads to.
pub open spec fn or_msg_type<T>(found: Option<T>) -> Result<T, Error> {
    match found {
        Some(data) => Ok(data),
        None => Err(Error::MsgType),
    }
}

/// The result of a background job, squashed together with the error from extracting it.
pub open spec fn squashed<T>(found: Option<Result<T, Error>>) -> Result<T, Error> {
    match found {
        Some(result) => result,
        None => Err(Error::MsgType),
    }
}

impl<D> Message<D> {
    /// Extract the held data.
    ///
    /// Extracts the data inside, consuming the message in the process. If the type does not match,
    /// [Error::MsgType] is returned.
    ///
    /// The caller provides the conversions of the payload, one to the plain data and one to the
    /// result of a background job. Each returns nothing if something else is in the payload.
    ///
    /// If you are not sure about the type upfront, you may check the [Message::real_type] method.
    pub fn get<T, P, B>(self, plain: P, background: B) -> (r: Result<T, Error>) where
        P: FnOnce(D) -> Option<T>,
        B: FnOnce(D) -> Option<Result<T, Error>>,

        requires
            self.mode is Background ==> background.requires((self.data,)),
            !(self.mode is Background) ==> plain.requires((self.data,)),
        ensures
            self.mode is Background ==> exists|found: Option<Result<T, Error>>| #[trigger]
                background.ensures((self.data,), found) && r == squashed(found),
            !(self.mode is Background) ==> exists|found: Option<T>| #[trigger]
                plain.ensures((self.data,), found) && r == or_msg_type(found),
    {
        if let DeliveryMode::Background(_) = self.mode {
            // The background task already contains result. We want to squash that, instead of
            // returning Result<Result<T>>.
            match background(self.data) {
                Some(result) => result,
                None => Err(Error::MsgType),
            }
        } else {
            match plain(self.data) {
                Some(data) => Ok(data),
                None => Err(Error::MsgType),
            }
        }
    }

    /// Get a type ID of the thing stored inside.
    pub fn real_type(&self) -> (r: &std::any::TypeId)
        ensures
            *r == self.real_type,
    {
        &self.real_type
    }

    /// The mode of the message.
    ///
    /// This specifies how the message originated and optionally from whom.
    pub fn mode(&self) -> (r: &DeliveryMode)
        ensures
            *r == self.mode,
    {
        &self.mode
    }
}

/// For sending messages between threads.
#[derive(Debug)]
pub struct RemoteMessage<D> {
    /// The payload.
    pub data: D,
    /// The type of what is inside the payload.
    pub real_type: std::any::TypeId,
    /// How the message originated.
    pub mode: DeliveryMode,
    /// Whom the message is for.
    pub recipient: Handle,
}

impl<D> RemoteMessage<D> {
    /// The message as the recipient sees it.
    pub open spec fn message(self) -> Message<D> {
        Message { data: self.data, real_type: self.real_type, mode: self.mode }
    }
}

} // verus!
