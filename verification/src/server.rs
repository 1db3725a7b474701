//! The broker: the connection registry and the subscription index under one
//! roof, and the five operations on them.
//!
//! Each operation is one step from a `BrokerState` to the next. A caller
//! that shares a `Server` between connections puts it behind a lock and
//! holds the lock for the length of a call; the operations then happen one
//! after another, and each finds and leaves every subscriber an open
//! connection.

use crate::error::PubSubError;
use crate::index::SubscriptionIndex;
use crate::model::BrokerState;
use crate::registry::ConnectionRegistry;
use crate::transport::{sender_token, token_of};
use vstd::prelude::*;

verus! {

/// One delivery attempt of a fan-out: who the message was handed to, and
/// what the sink made of it.
#[derive(Debug, PartialEq, Eq)]
pub struct Delivery {
    pub recipient: usize,
    pub outcome: Result<(), PubSubError>,
}

/// The recipients of a fan-out, in the order in which they were tried.
pub open spec fn recipients(report: Seq<Delivery>) -> Seq<usize> {
    report.map_values(|delivery: Delivery| delivery.recipient)
}

/// `report` is a complete fan-out to `subscribers`: every subscriber was
/// tried exactly once, nobody else was, and each attempt either went through
/// or ended in a `DeliveryError`. The order of the attempts is left open.
pub open spec fn is_fan_out(report: Seq<Delivery>, subscribers: Set<usize>) -> bool {
    &&& recipients(report).no_duplicates()
    &&& recipients(report).to_set() == subscribers
    &&& report.len() == subscribers.len()
    &&& forall|i: int|
        0 <= i < report.len() ==> {
            let outcome = #[trigger] report[i].outcome;
            outcome == Ok::<(), PubSubError>(()) || outcome == Err::<(), PubSubError>(
                PubSubError::DeliveryError,
            )
        }
}

/// A complete fan-out reaches every subscriber exactly once, and nobody who
/// is not subscribed.
pub proof fn lemma_fan_out_exactly_once(report: Seq<Delivery>, subscribers: Set<usize>, id: usize)
    requires
        is_fan_out(report, subscribers),
    ensures
        subscribers.contains(id) ==> exists|i: int|
            {
                &&& 0 <= i < report.len()
                &&& #[trigger] report[i].recipient == id
                &&& forall|j: int|
                    0 <= j < report.len() && j != i ==> #[trigger] report[j].recipient != id
            },
        !subscribers.contains(id) ==> forall|i: int|
            0 <= i < report.len() ==> #[trigger] report[i].recipient != id,
{
    let tried = recipients(report);
    if subscribers.contains(id) {
        assert(tried.to_set().contains(id));
        let i: int = choose|i: int| 0 <= i < tried.len() && tried[i] == id;
        assert(report[i].recipient == id);
        assert forall|j: int| 0 <= j < report.len() && j != i implies #[trigger] report[j].recipient
            != id by {
            assert(tried[j] == report[j].recipient);
        }
    } else {
        assert forall|i: int| 0 <= i < report.len() implies #[trigger] report[i].recipient
            != id by {
            assert(tried[i] == report[i].recipient);
            assert(tried.to_set().contains(tried[i]));
        }
    }
}

/// A fan-out to a channel without subscribers delivers nothing.
pub proof fn lemma_fan_out_to_nobody(report: Seq<Delivery>, subscribers: Set<usize>)
    requires
        is_fan_out(report, subscribers),
        forall|id: usize| !subscribers.contains(id),
    ensures
        report.len() == 0,
{
    if report.len() > 0 {
        let tried = recipients(report);
        assert(tried.to_set().contains(tried[0]));
    }
}

/// Once a connection has closed, no fan-out tries it, whatever the channel
/// and however many subscriptions it had.
pub proof fn lemma_no_delivery_after_disconnect(
    state: BrokerState,
    id: usize,
    channel: Seq<char>,
    report: Seq<Delivery>,
)
    requires
        is_fan_out(report, state.disconnect(id).subscribers_of(channel)),
    ensures
        forall|i: int| 0 <= i < report.len() ==> #[trigger] report[i].recipient != id,
{
    lemma_fan_out_exactly_once(report, state.disconnect(id).subscribers_of(channel), id);
}

/// The publish/subscribe broker.
pub struct Server {
    clients: ConnectionRegistry,
    channels: SubscriptionIndex,
}

impl View for Server {
    type V = BrokerState;

    closed spec fn view(&self) -> BrokerState {
        BrokerState { sinks: self.clients@, subscriptions: self.channels@ }
    }
}

impl Server {
    /// The broker is sound: its index is well formed, every subscriber is an
    /// open connection, and every sink is entered under the id of its own
    /// connection. `new` establishes this and every operation keeps it.
    pub closed spec fn wf(&self) -> bool {
        &&& self.channels.wf()
        &&& self@.consistent()
        &&& self@.addressed()
    }

    /// What `wf` says of the state.
    pub proof fn lemma_wf(self)
        requires
            self.wf(),
        ensures
            self@.consistent(),
            self@.addressed(),
    {
    }

    /// A broker without connections or subscriptions.
    pub fn new() -> (server: Server)
        ensures
            server.wf(),
            server@ == BrokerState::empty(),
    {
        let server = Server {
            clients: ConnectionRegistry::new(),
            channels: SubscriptionIndex::new(),
        };
        assert(server@ =~= BrokerState::empty());
        server
    }

    /// Enters a connection that has just opened, under the id of its
    /// sender's token and with a copy of the sender as its sink. It starts
    /// without subscriptions. An id that is already entered is refused with
    /// `DuplicateConnection`.
    pub fn add_client(&mut self, client: &ws::Sender) -> (result: Result<(), PubSubError>)
        requires
            old(self).wf(),
        ensures
            final(self).wf(),
            result == old(self)@.connect_outcome(token_of(*client)),
            final(self)@ == old(self)@.connect(token_of(*client), *client),
    {
        let id: usize = sender_token(client);
        let result = self.clients.register(id, client.clone());
        assert(self@ =~= old(self)@.connect(token_of(*client), *client));
        result
    }

    /// Removes a connection that has closed, and with it each of its
    /// subscriptions. Calling it for an id that is not entered, or a second
    /// time for the same id, changes nothing.
    pub fn remove_client(&mut self, token: usize)
        requires
            old(self).wf(),
        ensures
            final(self).wf(),
            final(self)@ == old(self)@.disconnect(token),
    {
        self.channels.remove_everywhere(token);
        self.clients.unregister(token);
        assert(self@ =~= old(self)@.disconnect(token));
    }

    /// Subscribes connection `client` to `channel`. Fails with
    /// `UnknownConnection` when the connection is not open, and with
    /// `AlreadySubscribed` when the subscription stands already.
    pub fn sub_client(&mut self, client: usize, channel: String) -> (result: Result<
        (),
        PubSubError,
    >)
        requires
            old(self).wf(),
        ensures
            final(self).wf(),
            result == old(self)@.subscribe_outcome(client, channel@),
            final(self)@ == old(self)@.subscribe(client, channel@),
    {
        if !self.clients.contains(client) {
            return Err(PubSubError::UnknownConnection);
        }
        let result = self.channels.add(channel, client);
        assert(self@ =~= old(self)@.subscribe(client, channel@));
        result
    }

    /// Ends the subscription of connection `client` to `channel`. Fails
    /// with `NotSubscribed` when there is no such subscription, whether or
    /// not the channel has ever been named.
    pub fn unsub_client(&mut self, client: usize, channel: String) -> (result: Result<
        (),
        PubSubError,
    >)
        requires
            old(self).wf(),
        ensures
            final(self).wf(),
            result == old(self)@.unsubscribe_outcome(client, channel@),
            final(self)@ == old(self)@.unsubscribe(client, channel@),
    {
        let result = self.channels.remove(&channel, client);
        assert(self@ =~= old(self)@.unsubscribe(client, channel@));
        result
    }

    /// Hands `msg` to every connection that is subscribed to `channel` at
    /// this moment: to each of them once, and to nobody else. A sink that
    /// fails is noted in the report and does not keep the message from the
    /// others. The call succeeds whatever the sinks do, also when the
    /// channel has no subscriber or was never named; the report is then
    /// empty. The broker's state does not change.
    pub fn pub_message(&mut self, channel: String, msg: String) -> (result: Result<
        Vec<Delivery>,
        PubSubError,
    >)
        requires
            old(self).wf(),
        ensures
            final(self).wf(),
            final(self)@ == old(self)@,
            result matches Ok(report) && is_fan_out(report@, old(self)@.subscribers_of(channel@)),
    {
        let subscribers = self.channels.subscribers_of(&channel);
        let mut report: Vec<Delivery> = Vec::new();
        let mut next: usize = 0;
        while next < subscribers.len()
            invariant
                next <= subscribers.len(),
                self.wf(),
                subscribers@.to_set() == self@.subscribers_of(channel@),
                recipients(report@) == subscribers@.take(next as int),
                forall|i: int|
                    0 <= i < report@.len() ==> {
                        let outcome = #[trigger] report@[i].outcome;
                        outcome == Ok::<(), PubSubError>(()) || outcome == Err::<(), PubSubError>(
                            PubSubError::DeliveryError,
                        )
                    },
            decreases subscribers.len() - next,
        {
            let recipient: usize = subscribers[next];
            proof {
                assert(subscribers@.to_set().contains(recipient));
                assert(self@.subscriptions.contains((channel@, recipient)));
            }
            let outcome = self.clients.deliver(recipient, msg.as_str());
            report.push(Delivery { recipient, outcome });
            proof {
                assert(recipients(report@) =~= subscribers@.take(next as int).push(recipient));
                assert(subscribers@.take(next + 1) =~= subscribers@.take(next as int).push(
                    recipient,
                ));
            }
            next = next + 1;
        }
        proof {
            assert(subscribers@.take(next as int) =~= subscribers@);
            subscribers@.unique_seq_to_set();
        }
        Ok(report)
    }

    /// Whether connection `id` is open.
    pub fn is_connected(&self, id: usize) -> (open: bool)
        ensures
            open == self@.connected(id),
    {
        self.clients.contains(id)
    }

    /// The connections subscribed to `channel` at this moment, each once.
    pub fn subscribers_of(&self, channel: &String) -> (subscribers: Vec<usize>)
        requires
            self.wf(),
        ensures
            subscribers@.no_duplicates(),
            subscribers@.to_set() == self@.subscribers_of(channel@),
    {
        self.channels.subscribers_of(channel)
    }
}

} // verus!
