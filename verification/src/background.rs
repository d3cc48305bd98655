//! What background jobs and channels send to the events.
use vstd::prelude::*;

use crate::error::Error;
use crate::handle::{BackgroundId, Handle};
use crate::message::{DeliveryMode, RemoteMessage};

verus! {

/// A channel to notify events.
///
/// It is possible to create a channel that allows sending data to specific event in the event
/// loop. This channel can be sent to another thread.
///
/// When the channel is created, it is checked that the event is still alive. However, there's no
/// notification through the channel when the event dies: further messages will simply disappear.
/// However, when the originating event loop is destroyed, the channel returns [Error::LoopGone]
/// when attempting to send a message. Also, it is not checked the recipient can accept this type of
/// message. If it doesn't, the message is simply dropped.
#[derive(Debug, Clone, Copy, PartialEq, Eq, Structural)]
pub struct Channel {
    /// The event at the other end.
    pub handle: Handle,
}

/// How an attempt to hand a message over to the loop ended.
#[derive(Debug)]
pub enum SendOutcome {
    /// The loop will read it.
    Sent,
    /// Waking up of the loop failed.
    Io(std::io::Error),
    /// There's nobody to read it.
    Disconnected,
}

impl Channel {
    /// The message to be sent to the corresponding event.
    pub fn send<D>(&self, data: D, real_type: std::any::TypeId) -> (m: RemoteMessage<D>)
        ensures
            (m == RemoteMessage {
                recipient: self.handle,
                data,
                real_type,
                mode: DeliveryMode::Remote,
            }),
    {
        RemoteMessage { recipient: self.handle, data, real_type, mode: DeliveryMode::Remote }
    }

    /// The result of sending.
    pub fn sent(outcome: SendOutcome) -> (r: Result<(), Error>)
        ensures
            r == (match outcome {
                SendOutcome::Sent => Ok::<(), Error>(()),
                SendOutcome::Io(io) => Err(Error::Io(io)),
                SendOutcome::Disconnected => Err(Error::LoopGone),
            }),
    {
        match outcome {
            SendOutcome::Sent => Ok(()),
            SendOutcome::Io(io) => Err(Error::Io(io)),
            SendOutcome::Disconnected => Err(Error::LoopGone),
        }
    }
}

/// What a background job that produces multiple results got to.
#[derive(Debug)]
pub enum IterStep<R> {
    /// There is another result.
    Item(R),
    /// There are no more results.
    End,
    /// There won't be any results.
    Failed(Error),
}

impl<R> IterStep<R> {
    /// The step a job gets to by an answer.
    ///
    /// The answer is what the iterator over the results gave, or the error because of which there
    /// is no iterator.
    pub open spec fn reached(answer: Result<Option<R>, Error>) -> IterStep<R> {
        match answer {
            Ok(Some(value)) => IterStep::Item(value),
            Ok(None) => IterStep::End,
            Err(error) => IterStep::Failed(error),
        }
    }

    /// The step a job gets to by an answer and whether it shall go on and ask for another one.
    pub fn after(answer: Result<Option<R>, Error>) -> (r: (IterStep<R>, bool))
        ensures
            r.0 == IterStep::reached(answer),
            r.1 == (r.0 is Item),
    {
        match answer {
            Ok(Some(value)) => (IterStep::Item(value), true),
            Ok(None) => (IterStep::End, false),
            Err(error) => (IterStep::Failed(error), false),
        }
    }

    /// What the event receives.
    pub open spec fn value(self) -> Result<R, Error> {
        match self {
            IterStep::Item(value) => Ok(value),
            IterStep::End => Err(Error::IterEnd),
            IterStep::Failed(error) => Err(error),
        }
    }
}

/// The steps of a job that gets these answers, until one of them ends it.
pub open spec fn steps_of<R>(answers: Seq<Result<Option<R>, Error>>) -> Seq<IterStep<R>>
    decreases answers.len(),
{
    if answers.len() == 0 {
        Seq::empty()
    } else {
        let step = IterStep::reached(answers.first());
        if step is Item {
            seq![step] + steps_of(answers.drop_first())
        } else {
            seq![step]
        }
    }
}

/// What an iterator over the results answers, until it gets to its end.
pub open spec fn all_answers<R>(results: Seq<R>) -> Seq<Result<Option<R>, Error>> {
    results.map_values(|value: R| Ok::<Option<R>, Error>(Some(value))).push(Ok(None))
}

/// The steps of a job that produces the given results.
pub open spec fn all_steps<R>(results: Seq<R>) -> Seq<IterStep<R>> {
    results.map_values(|value: R| IterStep::Item(value)).push(IterStep::End)
}

/// A job running in the background.
#[derive(Debug)]
pub struct BackgroundJob {
    /// The event waiting for the result.
    pub requestor: Handle,
    pub id: BackgroundId,
    /// Did the requestor already get the result?
    pub complete: bool,
}

impl BackgroundJob {
    /// The message with the value for the requestor.
    pub open spec fn message<R>(
        &self,
        value: Result<R, Error>,
        real_type: std::any::TypeId,
    ) -> RemoteMessage<Result<R, Error>> {
        RemoteMessage {
            recipient: self.requestor,
            data: value,
            real_type,
            mode: DeliveryMode::Background(self.id),
        }
    }

    /// A job that has just started.
    pub fn new(requestor: Handle, id: BackgroundId) -> (job: BackgroundJob)
        ensures
            (job == BackgroundJob { requestor, id, complete: false }),
    {
        BackgroundJob { requestor, id, complete: false }
    }

    /// The job finished with the result, which completes it.
    pub fn background<R>(
        &mut self,
        result: Result<R, Error>,
        real_type: std::any::TypeId,
    ) -> (m: RemoteMessage<Result<R, Error>>)
        ensures
            m == old(self).message(result, real_type),
            (*final(self) == BackgroundJob { complete: true, ..*old(self) }),
    {
        self.complete = true;
        RemoteMessage {
            recipient: self.requestor,
            data: result,
            real_type,
            mode: DeliveryMode::Background(self.id),
        }
    }

    /// The job with multiple results got a step further.
    ///
    /// There is one message for each result. The sequence is then terminated by
    /// [Error::IterEnd].
    pub fn background_iter<R>(
        &self,
        step: IterStep<R>,
        real_type: std::any::TypeId,
    ) -> (m: RemoteMessage<Result<R, Error>>)
        ensures
            m == self.message(step.value(), real_type),
    {
        let value = match step {
            IterStep::Item(value) => Ok(value),
            IterStep::End => Err(Error::IterEnd),
            IterStep::Failed(error) => Err(error),
        };
        RemoteMessage {
            recipient: self.requestor,
            data: value,
            real_type,
            mode: DeliveryMode::Background(self.id),
        }
    }

    /// The job went away, possibly because it panicked.
    ///
    /// If it isn't complete yet, the requestor needs to be told.
    pub fn abandoned<R>(&self, real_type: std::any::TypeId) -> (m: Option<
        RemoteMessage<Result<R, Error>>,
    >)
        ensures
            m == (if self.complete {
                None
            } else {
                Some(self.message(Err::<R, Error>(Error::BackgroundPanicked), real_type))
            }),
    {
        if self.complete {
            None
        } else {
            Some(
                RemoteMessage {
                    recipient: self.requestor,
                    data: Err(Error::BackgroundPanicked),
                    real_type,
                    mode: DeliveryMode::Background(self.id),
                },
            )
        }
    }
}

} // verus!
