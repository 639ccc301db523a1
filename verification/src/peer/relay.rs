//! What stands between the halves of a session and the rest of the client.
use crate::{RecvError, ThreadUpdate};
use vstd::prelude::*;

verus! {

/// What to do with an update.
#[derive(Copy, Clone, Debug, PartialEq, Eq, Structural)]
pub enum Relay {
    /// Send it on to the other side.
    Forward(ThreadUpdate),
    /// Drop it.
    Ignore,
    /// Stop relaying.
    Stop,
}

/// What becomes of what comes from the halves of a session.
pub open spec fn session_relay(result: Result<ThreadUpdate, RecvError>) -> Relay {
    match result {
        Ok(ThreadUpdate::Downloaded(piece, block)) => Relay::Forward(
            ThreadUpdate::Downloaded(piece, block),
        ),
        Ok(ThreadUpdate::Disconnect) => Relay::Stop,
        Ok(_) => Relay::Ignore,
        Err(RecvError::Closed) => Relay::Stop,
        Err(RecvError::Lagged(_)) => Relay::Ignore,
    }
}

/// What becomes of what comes from the halves of a session that ends with the download.
pub open spec fn finishing_session_relay(result: Result<ThreadUpdate, RecvError>) -> Relay {
    match result {
        Ok(ThreadUpdate::Downloaded(piece, block)) => Relay::Forward(
            ThreadUpdate::Downloaded(piece, block),
        ),
        Ok(ThreadUpdate::FileComplete) => Relay::Stop,
        Ok(_) => Relay::Ignore,
        Err(RecvError::Closed) => Relay::Stop,
        Err(RecvError::Lagged(_)) => Relay::Ignore,
    }
}

/// What becomes of what comes from the rest of the client.
pub open spec fn client_relay(result: Result<ThreadUpdate, RecvError>) -> Relay {
    match result {
        Ok(ThreadUpdate::Downloaded(_, _)) => Relay::Ignore,
        Ok(update) => Relay::Forward(update),
        Err(RecvError::Closed) => Relay::Stop,
        Err(RecvError::Lagged(_)) => Relay::Ignore,
    }
}

/// Decides on what comes from the halves of a session. Only received blocks are of interest to the
/// rest of the client, and the end of the session ends the relay.
pub fn from_session(result: Result<ThreadUpdate, RecvError>) -> (relay: Relay)
    ensures
        relay == session_relay(result),
{
    match result {
        Ok(ThreadUpdate::Downloaded(piece, block)) => Relay::Forward(
            ThreadUpdate::Downloaded(piece, block),
        ),
        Ok(ThreadUpdate::Disconnect) => Relay::Stop,
        Ok(_) => Relay::Ignore,
        Err(RecvError::Closed) => Relay::Stop,
        Err(RecvError::Lagged(_)) => Relay::Ignore,
    }
}

/// Decides on what comes from the halves of a session that ends with the download.
pub fn from_finishing_session(result: Result<ThreadUpdate, RecvError>) -> (relay: Relay)
    ensures
        relay == finishing_session_relay(result),
{
    match result {
        Ok(ThreadUpdate::Downloaded(piece, block)) => Relay::Forward(
            ThreadUpdate::Downloaded(piece, block),
        ),
        Ok(ThreadUpdate::FileComplete) => Relay::Stop,
        Ok(_) => Relay::Ignore,
        Err(RecvError::Closed) => Relay::Stop,
        Err(RecvError::Lagged(_)) => Relay::Ignore,
    }
}

/// Decides on what comes from the rest of the client. What other sessions have received is of no
/// interest to this one.
pub fn from_client(result: Result<ThreadUpdate, RecvError>) -> (relay: Relay)
    ensures
        relay == client_relay(result),
{
    match result {
        Ok(ThreadUpdate::Downloaded(_, _)) => Relay::Ignore,
        Ok(update) => Relay::Forward(update),
        Err(RecvError::Closed) => Relay::Stop,
        Err(RecvError::Lagged(_)) => Relay::Ignore,
    }
}

/// What a task of a session hands back when it ends.
#[derive(Debug)]
pub enum ChildUpdates<R, W> {
    /// The reading half hands back its end of the stream.
    Read(R),
    /// The writing half hands back its end of the stream.
    Write(W),
    /// The relay has nothing to hand back.
    ParentClosed,
}

/// The ends of the stream that have been handed back.
#[derive(Debug)]
pub struct Halves<R, W> {
    /// The end for reading.
    pub read: Option<R>,
    /// The end for writing.
    pub write: Option<W>,
}

impl<R, W> Halves<R, W> {
    /// What has been handed back after one more task has ended.
    pub open spec fn after(self, update: ChildUpdates<R, W>) -> Self {
        match update {
            ChildUpdates::Read(read) => Halves { read: Some(read), write: self.write },
            ChildUpdates::Write(write) => Halves { read: self.read, write: Some(write) },
            ChildUpdates::ParentClosed => self,
        }
    }

    /// Both ends, if both have been handed back.
    pub open spec fn both(self) -> Option<(R, W)> {
        match (self.read, self.write) {
            (Some(read), Some(write)) => Some((read, write)),
            _ => None,
        }
    }

    /// No end has been handed back.
    pub fn new() -> (halves: Self)
        ensures
            halves == (Halves::<R, W> { read: None, write: None }),
    {
        Halves { read: None, write: None }
    }

    /// Takes in what a task has handed back.
    pub fn collect(&mut self, update: ChildUpdates<R, W>)
        ensures
            *final(self) == old(self).after(update),
    {
        match update {
            ChildUpdates::Write(write) => {
                self.write = Some(write);
            },
            ChildUpdates::Read(read) => {
                self.read = Some(read);
            },
            ChildUpdates::ParentClosed => {},
        }
    }

    /// Both ends, so that the stream can be shut down, or an error when one is missing.
    pub fn join(self) -> (ends: Result<(R, W), &'static str>)
        ensures
            match ends {
                Ok(ends) => self.both() == Some(ends),
                Err(message) => self.both() is None && message@ == "Read/Write thread failed"@,
            },
    {
        match (self.read, self.write) {
            (Some(read), Some(write)) => Ok((read, write)),
            _ => Err("Read/Write thread failed"),
        }
    }
}

/// No update is relayed in both directions, so none comes back to where it was sent from.
pub proof fn nothing_is_relayed_back(update: ThreadUpdate)
    ensures
        !(session_relay(Ok(update)) is Forward && client_relay(Ok(update)) is Forward),
        !(finishing_session_relay(Ok(update)) is Forward && client_relay(Ok(update)) is Forward),
{
}

/// A session passes on every block that it receives and nothing else, and is over when it says so or
/// when nobody is left to say anything. One that ends with the download is over when the download is.
pub proof fn sessions_pass_on_blocks(result: Result<ThreadUpdate, RecvError>, update: ThreadUpdate)
    ensures
        session_relay(result) == Relay::Forward(update) <==> result == Ok::<ThreadUpdate, RecvError>(
            update,
        ) && update is Downloaded,
        finishing_session_relay(result) == Relay::Forward(update) <==> result == Ok::<
            ThreadUpdate,
            RecvError,
        >(update) && update is Downloaded,
        session_relay(result) == Relay::Stop <==> result == Ok::<ThreadUpdate, RecvError>(
            ThreadUpdate::Disconnect,
        ) || result == Err::<ThreadUpdate, RecvError>(RecvError::Closed),
        finishing_session_relay(result) == Relay::Stop <==> result == Ok::<ThreadUpdate, RecvError>(
            ThreadUpdate::FileComplete,
        ) || result == Err::<ThreadUpdate, RecvError>(RecvError::Closed),
{
}

/// The client passes on to its sessions everything but received blocks, until nobody is left to say
/// anything.
pub proof fn clients_pass_on_the_rest(result: Result<ThreadUpdate, RecvError>, update: ThreadUpdate)
    ensures
        client_relay(result) == Relay::Forward(update) <==> result == Ok::<ThreadUpdate, RecvError>(
            update,
        ) && !(update is Downloaded),
        client_relay(result) == Relay::Stop <==> result == Err::<ThreadUpdate, RecvError>(
            RecvError::Closed,
        ),
{
}

/// The ends that two tasks hand back are both there afterwards, in whichever order the tasks end and
/// whatever the relay does. Where only one has been handed back the stream cannot be shut down.
pub proof fn ends_are_collected_in_any_order<R, W>(read: R, write: W)
    ensures
        ({
            let none = Halves::<R, W> { read: None, write: None };
            let r = ChildUpdates::<R, W>::Read(read);
            let w = ChildUpdates::<R, W>::Write(write);
            let closed = ChildUpdates::<R, W>::ParentClosed;
            &&& none.after(r).after(w).both() == Some((read, write))
            &&& none.after(w).after(r).both() == Some((read, write))
            &&& none.after(closed).after(r).after(closed).after(w).both() == Some((read, write))
            &&& none.after(r).both() is None
            &&& none.after(w).both() is None
            &&& none.both() is None
        }),
{
}

} // verus!
