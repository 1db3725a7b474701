//! The connection registry: the open connections, each with the sink through
//! which it is written to.

use crate::error::PubSubError;
use crate::transport::send_text;
use std::collections::HashMap;
use vstd::prelude::*;

verus! {

broadcast use vstd::std_specs::hash::group_hash_axioms;

/// What a delivery attempt amounts to for the broker: a sink that took the
/// message, or a `DeliveryError` whatever reason the sink gave.
pub fn delivery_result(outcome: Result<(), ws::Error>) -> (result: Result<(), PubSubError>)
    ensures
        outcome is Ok ==> result == Ok::<(), PubSubError>(()),
        outcome is Err ==> result == Err::<(), PubSubError>(PubSubError::DeliveryError),
{
    match outcome {
        Ok(_) => Ok(()),
        Err(_) => Err(PubSubError::DeliveryError),
    }
}

/// The open connections by id. Its view maps each id to the sink of that
/// connection.
pub struct ConnectionRegistry {
    sinks: HashMap<usize, ws::Sender>,
}

impl View for ConnectionRegistry {
    type V = Map<usize, ws::Sender>;

    closed spec fn view(&self) -> Map<usize, ws::Sender> {
        self.sinks@
    }
}

impl ConnectionRegistry {
    /// A registry without connections.
    pub fn new() -> (registry: ConnectionRegistry)
        ensures
            registry@ == Map::<usize, ws::Sender>::empty(),
    {
        ConnectionRegistry { sinks: HashMap::new() }
    }

    /// Whether a connection with this id is open.
    pub fn contains(&self, id: usize) -> (open: bool)
        ensures
            open == self@.contains_key(id),
    {
        self.sinks.contains_key(&id)
    }

    /// Enters a new connection. An id that is already entered is refused and
    /// keeps the sink it had.
    pub fn register(&mut self, id: usize, sink: ws::Sender) -> (result: Result<(), PubSubError>)
        ensures
            old(self)@.contains_key(id) ==> {
                &&& result == Err::<(), PubSubError>(PubSubError::DuplicateConnection)
                &&& final(self)@ == old(self)@
            },
            !old(self)@.contains_key(id) ==> {
                &&& result == Ok::<(), PubSubError>(())
                &&& final(self)@ == old(self)@.insert(id, sink)
            },
    {
        if self.sinks.contains_key(&id) {
            Err(PubSubError::DuplicateConnection)
        } else {
            self.sinks.insert(id, sink);
            Ok(())
        }
    }

    /// Drops the connection with this id. An id that is not entered is left
    /// alone: closing twice is no error.
    pub fn unregister(&mut self, id: usize)
        ensures
            final(self)@ == old(self)@.remove(id),
    {
        self.sinks.remove(&id);
    }

    /// Hands `message` to the sink of connection `id`. Fails with
    /// `UnknownConnection` exactly when the id is not entered; for an entered
    /// id the sink decides between success and `DeliveryError`.
    pub fn deliver(&self, id: usize, message: &str) -> (result: Result<(), PubSubError>)
        ensures
            !self@.contains_key(id) ==> result == Err::<(), PubSubError>(
                PubSubError::UnknownConnection,
            ),
            self@.contains_key(id) ==> result == Ok::<(), PubSubError>(()) || result == Err::<
                (),
                PubSubError,
            >(PubSubError::DeliveryError),
    {
        match self.sinks.get(&id) {
            Some(sink) => delivery_result(send_text(sink, message)),
            None => Err(PubSubError::UnknownConnection),
        }
    }
}

} // verus!
