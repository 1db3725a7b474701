//! The broker as mathematics: its state, what each operation makes of a
//! state, and the laws that follow.
//!
//! The executable broker states its contracts over this model, so the laws
//! proved here hold of every run of it.

use crate::error::PubSubError;
use crate::index::{subscribers_in, without_connection};
use crate::transport::token_of;
use vstd::prelude::*;

verus! {

/// The state of a broker: the sink of every open connection, and the
/// subscriptions as pairs of a channel name and a connection id.
#[verifier::ext_equal]
pub struct BrokerState {
    pub sinks: Map<usize, ws::Sender>,
    pub subscriptions: Set<(Seq<char>, usize)>,
}

/// One operation of the broker with its arguments.
pub enum Operation {
    Connect { id: usize, sink: ws::Sender },
    Disconnect { id: usize },
    Subscribe { id: usize, channel: Seq<char> },
    Unsubscribe { id: usize, channel: Seq<char> },
    Publish { channel: Seq<char> },
}

impl BrokerState {
    /// The state of a broker that nobody has connected to.
    pub open spec fn empty() -> BrokerState {
        BrokerState { sinks: Map::empty(), subscriptions: Set::empty() }
    }

    /// Connection `id` is open.
    pub open spec fn connected(self, id: usize) -> bool {
        self.sinks.contains_key(id)
    }

    /// Connection `id` is subscribed to `channel`.
    pub open spec fn subscribed(self, id: usize, channel: Seq<char>) -> bool {
        self.subscriptions.contains((channel, id))
    }

    /// The connections subscribed to `channel`.
    pub open spec fn subscribers_of(self, channel: Seq<char>) -> Set<usize> {
        subscribers_in(self.subscriptions, channel)
    }

    /// Every subscriber is an open connection.
    pub open spec fn consistent(self) -> bool {
        forall|channel: Seq<char>, id: usize| #[trigger]
            self.subscriptions.contains((channel, id)) ==> self.sinks.contains_key(id)
    }

    /// Every sink is entered under the id of the connection it writes to.
    pub open spec fn addressed(self) -> bool {
        forall|id: usize| #[trigger] self.sinks.contains_key(id) ==> token_of(self.sinks[id]) == id
    }

    /// What opening connection `id` reports.
    pub open spec fn connect_outcome(self, id: usize) -> Result<(), PubSubError> {
        if self.connected(id) {
            Err(PubSubError::DuplicateConnection)
        } else {
            Ok(())
        }
    }

    /// The state after opening connection `id` with `sink`: the connection
    /// is entered without subscriptions, unless the id is taken.
    pub open spec fn connect(self, id: usize, sink: ws::Sender) -> BrokerState {
        if self.connected(id) {
            self
        } else {
            BrokerState { sinks: self.sinks.insert(id, sink), ..self }
        }
    }

    /// The state after closing connection `id`: the connection is gone, and
    /// so is each of its subscriptions.
    pub open spec fn disconnect(self, id: usize) -> BrokerState {
        BrokerState {
            sinks: self.sinks.remove(id),
            subscriptions: without_connection(self.subscriptions, id),
        }
    }

    /// What subscribing connection `id` to `channel` reports.
    pub open spec fn subscribe_outcome(self, id: usize, channel: Seq<char>) -> Result<
        (),
        PubSubError,
    > {
        if !self.connected(id) {
            Err(PubSubError::UnknownConnection)
        } else if self.subscribed(id, channel) {
            Err(PubSubError::AlreadySubscribed)
        } else {
            Ok(())
        }
    }

    /// The state after subscribing connection `id` to `channel`: one more
    /// subscription where the command succeeds, no change where it fails.
    pub open spec fn subscribe(self, id: usize, channel: Seq<char>) -> BrokerState {
        if self.subscribe_outcome(id, channel) is Ok {
            BrokerState { subscriptions: self.subscriptions.insert((channel, id)), ..self }
        } else {
            self
        }
    }

    /// What unsubscribing connection `id` from `channel` reports.
    pub open spec fn unsubscribe_outcome(self, id: usize, channel: Seq<char>) -> Result<
        (),
        PubSubError,
    > {
        if self.subscribed(id, channel) {
            Ok(())
        } else {
            Err(PubSubError::NotSubscribed)
        }
    }

    /// The state after unsubscribing connection `id` from `channel`: one
    /// subscription fewer where the command succeeds, no change where it
    /// fails.
    pub open spec fn unsubscribe(self, id: usize, channel: Seq<char>) -> BrokerState {
        BrokerState { subscriptions: self.subscriptions.remove((channel, id)), ..self }
    }

    /// What `operation` reports. Closing and publishing always succeed.
    pub open spec fn outcome(self, operation: Operation) -> Result<(), PubSubError> {
        match operation {
            Operation::Connect { id, .. } => self.connect_outcome(id),
            Operation::Disconnect { .. } => Ok(()),
            Operation::Subscribe { id, channel } => self.subscribe_outcome(id, channel),
            Operation::Unsubscribe { id, channel } => self.unsubscribe_outcome(id, channel),
            Operation::Publish { .. } => Ok(()),
        }
    }

    /// The state after `operation`. Publishing changes nothing.
    pub open spec fn step(self, operation: Operation) -> BrokerState {
        match operation {
            Operation::Connect { id, sink } => self.connect(id, sink),
            Operation::Disconnect { id } => self.disconnect(id),
            Operation::Subscribe { id, channel } => self.subscribe(id, channel),
            Operation::Unsubscribe { id, channel } => self.unsubscribe(id, channel),
            Operation::Publish { .. } => self,
        }
    }

    /// The state after `operations`, carried out one after another.
    pub open spec fn run(self, operations: Seq<Operation>) -> BrokerState
        decreases operations.len(),
    {
        if operations.len() == 0 {
            self
        } else {
            self.run(operations.drop_last()).step(operations.last())
        }
    }
}

/// Subscribing is rejected the second time: once a connection has asked for
/// a channel, asking again reports `AlreadySubscribed` and changes nothing,
/// so the channel lists the connection once.
pub proof fn lemma_subscribe_again_rejected(state: BrokerState, id: usize, channel: Seq<char>)
    requires
        state.connected(id),
    ensures
        !state.subscribed(id, channel) ==> state.subscribe_outcome(id, channel) == Ok::<
            (),
            PubSubError,
        >(()),
        state.subscribe(id, channel).subscribe_outcome(id, channel) == Err::<(), PubSubError>(
            PubSubError::AlreadySubscribed,
        ),
        state.subscribe(id, channel).subscribe(id, channel) == state.subscribe(id, channel),
        state.subscribe(id, channel).subscribers_of(channel) == state.subscribers_of(
            channel,
        ).insert(id),
        state.subscribers_of(channel).finite() && !state.subscribed(id, channel)
            ==> state.subscribe(id, channel).subscribers_of(channel).len() == state.subscribers_of(
            channel,
        ).len() + 1,
{
    let once = state.subscribe(id, channel);
    assert(once.subscribers_of(channel) =~= state.subscribers_of(channel).insert(id));
}

/// Unsubscribing undoes subscribing: after a subscription that succeeded,
/// unsubscribing succeeds and gives back the state from before, in which a
/// further unsubscribing reports `NotSubscribed`.
pub proof fn lemma_unsubscribe_undoes_subscribe(state: BrokerState, id: usize, channel: Seq<char>)
    requires
        state.subscribe_outcome(id, channel) is Ok,
    ensures
        state.subscribe(id, channel).unsubscribe_outcome(id, channel) == Ok::<(), PubSubError>(()),
        state.subscribe(id, channel).unsubscribe(id, channel) == state,
        state.subscribe(id, channel).unsubscribe(id, channel).unsubscribe_outcome(id, channel)
            == Err::<(), PubSubError>(PubSubError::NotSubscribed),
{
    assert(state.subscribe(id, channel).unsubscribe(id, channel) =~= state);
}

/// Unsubscribing without a subscription, on a channel known or unknown,
/// reports `NotSubscribed` and changes nothing.
pub proof fn lemma_unsubscribe_without_subscription(
    state: BrokerState,
    id: usize,
    channel: Seq<char>,
)
    requires
        !state.subscribed(id, channel),
    ensures
        state.unsubscribe_outcome(id, channel) == Err::<(), PubSubError>(
            PubSubError::NotSubscribed,
        ),
        state.unsubscribe(id, channel) == state,
{
    assert(state.unsubscribe(id, channel) =~= state);
}

/// Closing a connection clears it from every channel: afterwards no channel
/// lists it, other connections keep their subscriptions, and a subscribe in
/// its name reports `UnknownConnection`.
pub proof fn lemma_disconnect_clears(state: BrokerState, id: usize, channel: Seq<char>)
    ensures
        !state.disconnect(id).connected(id),
        !state.disconnect(id).subscribers_of(channel).contains(id),
        state.disconnect(id).subscribers_of(channel) == state.subscribers_of(channel).remove(id),
        state.disconnect(id).subscribe_outcome(id, channel) == Err::<(), PubSubError>(
            PubSubError::UnknownConnection,
        ),
{
    assert(state.disconnect(id).subscribers_of(channel) =~= state.subscribers_of(channel).remove(
        id,
    ));
}

/// Closing is idempotent: closing a connection that is already closed, or
/// that never opened, changes nothing.
pub proof fn lemma_disconnect_idempotent(state: BrokerState, id: usize)
    ensures
        state.disconnect(id).disconnect(id) == state.disconnect(id),
        state.consistent() && !state.connected(id) ==> state.disconnect(id) == state,
{
    assert(state.disconnect(id).disconnect(id) =~= state.disconnect(id));
    if state.consistent() && !state.connected(id) {
        assert forall|pair: (Seq<char>, usize)| state.subscriptions.contains(pair) implies pair.1
            != id by {
            assert(state.subscriptions.contains((pair.0, pair.1)));
        }
        assert(state.disconnect(id) =~= state);
    }
}

/// An operation that fails changes nothing: the error is all that comes of
/// it, for the connection that issued it and for every other.
pub proof fn lemma_failure_changes_nothing(state: BrokerState, operation: Operation)
    requires
        state.outcome(operation) is Err,
    ensures
        state.step(operation) == state,
{
    assert(state.step(operation) =~= state);
}

/// No operation lets a channel list a connection that is not open: from a
/// consistent state every operation, with any arguments and whether it
/// succeeds or fails, leads to a consistent state.
pub proof fn lemma_step_keeps_consistency(state: BrokerState, operation: Operation)
    requires
        state.consistent(),
    ensures
        state.step(operation).consistent(),
{
}

/// However the connections interleave their operations, the broker ends in
/// a consistent state: every run from the empty broker, of any length and
/// with any operations in any order, leaves every subscriber an open
/// connection.
pub proof fn lemma_every_run_is_consistent(operations: Seq<Operation>)
    ensures
        BrokerState::empty().run(operations).consistent(),
    decreases operations.len(),
{
    if operations.len() > 0 {
        lemma_every_run_is_consistent(operations.drop_last());
        lemma_step_keeps_consistency(
            BrokerState::empty().run(operations.drop_last()),
            operations.last(),
        );
    }
}

/// An operation in the name of one connection leaves the subscriptions of
/// every other connection as they were.
pub proof fn lemma_other_connections_untouched(
    state: BrokerState,
    id: usize,
    channel: Seq<char>,
    other: usize,
    other_channel: Seq<char>,
)
    requires
        other != id,
    ensures
        state.subscribe(id, channel).subscribed(other, other_channel) == state.subscribed(
            other,
            other_channel,
        ),
        state.unsubscribe(id, channel).subscribed(other, other_channel) == state.subscribed(
            other,
            other_channel,
        ),
        state.disconnect(id).subscribed(other, other_channel) == state.subscribed(
            other,
            other_channel,
        ),
        state.disconnect(id).connected(other) == state.connected(other),
{
}

} // verus!
