//! The ways in which a single command can fail.

use vstd::prelude::*;

verus! {

/// Why a command was not carried out. Every failure is local to the command
/// and the connection that caused it; the broker's state is left as it was.
#[derive(Debug, PartialEq, Eq)]
pub enum PubSubError {
    /// The line is not one of the three commands. Carries the line as it was
    /// received.
    ParseError { line: String },
    /// The connection is already subscribed to the channel.
    AlreadySubscribed,
    /// The connection is not subscribed to the channel.
    NotSubscribed,
    /// No open connection has this identity.
    UnknownConnection,
    /// The connection's sink refused the message.
    DeliveryError,
    /// A connection with this identity is already registered.
    DuplicateConnection,
}

} // verus!
