//! The boundary to the `ws` crate: the sink through which a connection is
//! written to, and the few calls the broker makes on it.
//!
//! Nothing in this module is proved. Each contract below is a claim about
//! `ws` that the rest of the crate relies on.

use vstd::prelude::*;

verus! {

/// `ws::Sender`, the handle that queues outgoing frames for one connection.
/// Its contents are not visible to the verifier.
#[verifier::external_type_specification]
#[verifier::external_body]
pub struct ExSender(ws::Sender);

/// `ws::Error`, the error that the calls on a `ws::Sender` return. Its
/// contents are not visible to the verifier.
#[verifier::external_type_specification]
#[verifier::external_body]
pub struct ExError(ws::Error);

/// The number inside the token that `ws::Sender::token` returns for `sender`:
/// the identity that `ws` gave the connection when it was accepted.
pub uninterp spec fn token_of(sender: ws::Sender) -> usize;

/// Calls `ws::Sender::token` and unwraps the `usize` that the token holds.
/// The token is a field of the sender, fixed when the sender is made, so the
/// result depends on the sender alone.
#[verifier::external_body]
pub(crate) fn sender_token(sender: &ws::Sender) -> (id: usize)
    ensures
        id == token_of(*sender),
{
    sender.token().0
}

/// `Clone::clone` of `ws::Sender`. The copy holds the same token, the same
/// connection id and a handle to the same event queue, so whatever is sent
/// through it reaches the connection of the original: the contract treats
/// the two as the same sink.
pub assume_specification[ <ws::Sender as Clone>::clone ](sender: &ws::Sender) -> (copy: ws::Sender)
    ensures
        copy == *sender,
;

/// Calls `ws::Sender::send` with `text` as a text message. The call puts the
/// message on the event queue of the WebSocket. It fails when the receiving
/// end of that queue is gone or the event loop cannot be woken, and it waits
/// while the queue is full. Whether it succeeds depends on the state of the
/// queue, so nothing is promised of the outcome.
#[verifier::external_body]
pub(crate) fn send_text(sender: &ws::Sender, text: &str) -> (outcome: Result<(), ws::Error>) {
    sender.send(text)
}

} // verus!
