//! The session of one connection: what the transport reports of it (opened,
//! sent a line, closed), turned into operations of the broker.

use crate::codec::{command_of, decodes, parse, Command, PubSubMessage};
use crate::error::PubSubError;
use crate::model::BrokerState;
use crate::server::{is_fan_out, Delivery, Server};
use crate::transport::{sender_token, token_of};
use vstd::prelude::*;

verus! {

/// `result` is the reply to a command that reported `outcome` and made no
/// delivery: an empty report for a success, the same error for a failure.
pub open spec fn replies(
    result: Result<Vec<Delivery>, PubSubError>,
    outcome: Result<(), PubSubError>,
) -> bool {
    match outcome {
        Ok(_) => result matches Ok(report) && report@.len() == 0,
        Err(error) => result == Err::<Vec<Delivery>, PubSubError>(error),
    }
}

/// The line `text` of connection `client` took the broker from `before` to
/// `after` and was answered with `result`. A line that encodes no command
/// is answered with a `ParseError` that carries it, and changes nothing. A
/// command is carried out in the name of `client` and answered as the
/// broker answers it: `SUBSCRIBE` and `UNSUBSCRIBE` with no delivery,
/// `PUBLISH` with the report of its fan-out.
pub open spec fn carried_out(
    before: BrokerState,
    after: BrokerState,
    client: usize,
    text: Seq<char>,
    result: Result<Vec<Delivery>, PubSubError>,
) -> bool {
    match command_of(text) {
        None => {
            &&& after == before
            &&& result matches Err(PubSubError::ParseError { line })
            &&& line@ == text
        },
        Some(Command::Subscribe { channel }) => {
            &&& after == before.subscribe(client, channel)
            &&& replies(result, before.subscribe_outcome(client, channel))
        },
        Some(Command::Unsubscribe { channel }) => {
            &&& after == before.unsubscribe(client, channel)
            &&& replies(result, before.unsubscribe_outcome(client, channel))
        },
        Some(Command::Publish { channel, .. }) => {
            &&& after == before
            &&& result matches Ok(report)
            &&& is_fan_out(report@, before.subscribers_of(channel))
        },
    }
}

/// Decodes one line sent by connection `client` and carries the command
/// out.
pub fn handle_text(server: &mut Server, client: usize, text: &str) -> (result: Result<
    Vec<Delivery>,
    PubSubError,
>)
    requires
        old(server).wf(),
    ensures
        final(server).wf(),
        carried_out(old(server)@, final(server)@, client, text@, result),
{
    match parse(text) {
        Ok(PubSubMessage::SUBSCRIBE { channel }) => match server.sub_client(client, channel) {
            Ok(_) => Ok(Vec::new()),
            Err(error) => Err(error),
        },
        Ok(PubSubMessage::UNSUBSCRIBE { channel }) => match server.unsub_client(client, channel) {
            Ok(_) => Ok(Vec::new()),
            Err(error) => Err(error),
        },
        Ok(PubSubMessage::PUBLISH { channel, msg }) => server.pub_message(channel, msg),
        Err(error) => Err(error),
    }
}

/// The broker's end of one connection.
pub struct ClientHandle {
    /// The sender that `ws` made for the connection.
    pub client: ws::Sender,
}

impl ClientHandle {
    /// The id of the connection: the number in its sender's token.
    pub open spec fn id(&self) -> usize {
        token_of(self.client)
    }

    /// Decodes one line, as `parse` does.
    pub fn parse_message(&self, msg: String) -> (result: Result<PubSubMessage, PubSubError>)
        ensures
            decodes(msg@, result),
    {
        parse(msg.as_str())
    }

    /// The connection has opened: it is entered in the broker.
    pub fn on_open(&self, server: &mut Server) -> (result: Result<(), PubSubError>)
        requires
            old(server).wf(),
        ensures
            final(server).wf(),
            result == old(server)@.connect_outcome(self.id()),
            final(server)@ == old(server)@.connect(self.id(), self.client),
    {
        server.add_client(&self.client)
    }

    /// The connection has closed: it leaves the broker and every channel.
    /// A second notice of the same closing changes nothing.
    pub fn on_close(&self, server: &mut Server)
        requires
            old(server).wf(),
        ensures
            final(server).wf(),
            final(server)@ == old(server)@.disconnect(self.id()),
    {
        server.remove_client(sender_token(&self.client))
    }

    /// The connection has sent `msg`: the line is decoded and the command
    /// carried out in the connection's name.
    pub fn on_message(&self, server: &mut Server, msg: String) -> (result: Result<
        Vec<Delivery>,
        PubSubError,
    >)
        requires
            old(server).wf(),
        ensures
            final(server).wf(),
            carried_out(old(server)@, final(server)@, self.id(), msg@, result),
    {
        handle_text(server, sender_token(&self.client), msg.as_str())
    }
}

} // verus!
