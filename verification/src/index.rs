//! The subscription index: which connections are subscribed to which
//! channel.
//!
//! The index is a relation between channel names and connection ids. A
//! channel exists while it has a subscriber: the entry of a channel is made
//! with its first subscriber and dropped with its last, so a channel that
//! has lost its subscribers and one that was never named are the same thing.

use crate::error::PubSubError;
use std::collections::BTreeSet;
use vstd::prelude::*;
use vstd::std_specs::iter::IteratorSpec;

verus! {

broadcast use {vstd::std_specs::btree::group_btree_axioms, vstd::laws_cmp::group_laws_cmp};

/// The subscribers of one channel.
struct Channel {
    name: String,
    subscribers: BTreeSet<usize>,
}

/// The set of subscriptions, each a pair of a channel name and the id of a
/// connection subscribed to it.
pub struct SubscriptionIndex {
    channels: Vec<Channel>,
}

/// The ids that `subscriptions` relates to `channel`.
pub open spec fn subscribers_in(subscriptions: Set<(Seq<char>, usize)>, channel: Seq<char>) -> Set<
    usize,
> {
    Set::new(|id: usize| subscriptions.contains((channel, id)))
}

/// `subscriptions` without the pairs of connection `id`.
pub open spec fn without_connection(subscriptions: Set<(Seq<char>, usize)>, id: usize) -> Set<
    (Seq<char>, usize),
> {
    subscriptions.filter(|pair: (Seq<char>, usize)| pair.1 != id)
}

impl View for SubscriptionIndex {
    type V = Set<(Seq<char>, usize)>;

    closed spec fn view(&self) -> Set<(Seq<char>, usize)> {
        Set::new(|pair: (Seq<char>, usize)| self.holds(pair.0, pair.1))
    }
}

impl SubscriptionIndex {
    /// No two entries carry the same channel name.
    spec fn distinct(self) -> bool {
        forall|i: int, j: int|
            0 <= i < j < self.channels.len() ==> self.channels[i].name@ != self.channels[j].name@
    }

    /// Every entry lists a subscriber.
    spec fn inhabited(self) -> bool {
        forall|i: int|
            0 <= i < self.channels.len() ==> !(#[trigger] self.channels[i]).subscribers@.is_empty()
    }

    /// The representation is sound: no two entries carry the same channel
    /// name, and no entry is without subscribers. Every constructor
    /// establishes this and every method keeps it.
    pub closed spec fn wf(&self) -> bool {
        self.distinct() && self.inhabited()
    }

    /// Some entry named `channel` lists `id`.
    spec fn holds(self, channel: Seq<char>, id: usize) -> bool {
        exists|at: int|
            0 <= at < self.channels.len() && #[trigger] self.channels[at].name@ == channel
                && self.channels[at].subscribers@.contains(id)
    }

    /// What the index relates to the name of an entry is what that entry
    /// lists.
    proof fn lemma_entry(self, at: int, id: usize)
        requires
            self.distinct(),
            0 <= at < self.channels.len(),
        ensures
            self@.contains((self.channels[at].name@, id))
                == self.channels[at].subscribers@.contains(id),
    {
        if self.holds(self.channels[at].name@, id) {
            let other: int = choose|other: int|
                0 <= other < self.channels.len() && #[trigger] self.channels[other].name@
                    == self.channels[at].name@ && self.channels[other].subscribers@.contains(id);
            assert(other == at);
        }
    }

    /// The index relates nothing to a name that no entry carries.
    proof fn lemma_unnamed(self, channel: Seq<char>, id: usize)
        requires
            forall|i: int| 0 <= i < self.channels.len() ==> self.channels[i].name@ != channel,
        ensures
            !self@.contains((channel, id)),
    {
    }

    /// Settles what the index is after the entries of `before` have been
    /// rewritten in place: where the names stand as they did, each entry
    /// lists exactly what `target` relates to its name, and `target` holds
    /// no pair that is in neither index, the index is `target`.
    proof fn lemma_rewritten(self, before: Self, target: Set<(Seq<char>, usize)>)
        requires
            self.channels.len() == before.channels.len(),
            forall|i: int|
                0 <= i < self.channels.len() ==> self.channels[i].name@ == before.channels[i].name@,
            forall|i: int, id: usize|
                0 <= i < self.channels.len() ==> #[trigger] self.channels[i].subscribers@.contains(
                    id,
                ) == target.contains((before.channels[i].name@, id)),
            forall|pair: (Seq<char>, usize)| #[trigger]
                target.contains(pair) ==> before@.contains(pair) || self@.contains(pair),
        ensures
            self@ == target,
    {
        assert forall|pair: (Seq<char>, usize)| self@.contains(pair) == target.contains(pair) by {
            if target.contains(pair) && before.holds(pair.0, pair.1) {
                let i: int = choose|i: int|
                    0 <= i < before.channels.len() && #[trigger] before.channels[i].name@ == pair.0
                        && before.channels[i].subscribers@.contains(pair.1);
                assert(self.channels[i].name@ == pair.0);
                assert(self.channels[i].subscribers@.contains(pair.1));
            }
            if self.holds(pair.0, pair.1) {
                let i: int = choose|i: int|
                    0 <= i < self.channels.len() && #[trigger] self.channels[i].name@ == pair.0
                        && self.channels[i].subscribers@.contains(pair.1);
                assert(before.channels[i].name@ == pair.0);
            }
        }
        assert(self@ =~= target);
    }

    /// Dropping an entry without subscribers, by moving the last entry into
    /// its place, leaves the index as it was.
    proof fn lemma_dropped(self, before: Self, at: int)
        requires
            before.distinct(),
            0 <= at < before.channels.len(),
            before.channels[at].subscribers@.is_empty(),
            self.channels@ == before.channels@.update(at, before.channels@.last()).drop_last(),
        ensures
            self.distinct(),
            self@ == before@,
            forall|i: int|
                0 <= i < self.channels.len() && i != at ==> self.channels[i] == before.channels[i],
    {
        let last: int = before.channels.len() - 1;
        assert forall|i: int| 0 <= i < self.channels.len() implies #[trigger] self.channels[i]
            == before.channels[if i == at { last } else { i }] by {}
        assert forall|pair: (Seq<char>, usize)| self@.contains(pair) == before@.contains(pair) by {
            if before.holds(pair.0, pair.1) {
                let i: int = choose|i: int|
                    0 <= i < before.channels.len() && #[trigger] before.channels[i].name@ == pair.0
                        && before.channels[i].subscribers@.contains(pair.1);
                let moved: int = if i == last { at } else { i };
                assert(self.channels[moved].name@ == pair.0);
            }
            if self.holds(pair.0, pair.1) {
                let i: int = choose|i: int|
                    0 <= i < self.channels.len() && #[trigger] self.channels[i].name@ == pair.0
                        && self.channels[i].subscribers@.contains(pair.1);
                let came: int = if i == at { last } else { i };
                assert(before.channels[came].name@ == pair.0);
            }
        }
        assert(self@ =~= before@);
    }

    /// An index without subscriptions.
    pub fn new() -> (index: SubscriptionIndex)
        ensures
            index.wf(),
            index@ == Set::<(Seq<char>, usize)>::empty(),
    {
        let index = SubscriptionIndex { channels: Vec::new() };
        assert(index@ =~= Set::<(Seq<char>, usize)>::empty());
        index
    }

    /// Where the entry named `channel` stands, if there is one.
    fn position(&self, channel: &String) -> (found: Option<usize>)
        ensures
            match found {
                Some(at) => at < self.channels.len() && self.channels[at as int].name@ == channel@,
                None => forall|i: int|
                    0 <= i < self.channels.len() ==> self.channels[i].name@ != channel@,
            },
    {
        let mut at: usize = 0;
        while at < self.channels.len()
            invariant
                at <= self.channels.len(),
                forall|i: int| 0 <= i < at ==> self.channels[i].name@ != channel@,
            decreases self.channels.len() - at,
        {
            if self.channels[at].name == *channel {
                return Some(at);
            }
            at = at + 1;
        }
        None
    }

    /// Takes connection `id` off the entry at `at`, which lists it, and
    /// drops the entry if that leaves it without subscribers. Tells whether
    /// the entry is still there; if it is not, the last entry has taken its
    /// place.
    fn unlist(&mut self, at: usize, id: usize) -> (kept: bool)
        requires
            old(self).wf(),
            at < old(self).channels.len(),
            old(self).channels[at as int].subscribers@.contains(id),
        ensures
            final(self).wf(),
            final(self)@ == old(self)@.remove((old(self).channels[at as int].name@, id)),
            forall|i: int| 0 <= i < at ==> final(self).channels[i] == old(self).channels[i],
            kept ==> {
                &&& final(self).channels.len() == old(self).channels.len()
                &&& !final(self).channels[at as int].subscribers@.contains(id)
            },
            !kept ==> final(self).channels.len() == old(self).channels.len() - 1,
    {
        let ghost before = *self;
        let ghost target = before@.remove((before.channels[at as int].name@, id));
        self.channels[at].subscribers.remove(&id);
        let ghost taken = *self;
        proof {
            assert forall|i: int, other: usize| 0 <= i < taken.channels.len() implies
                #[trigger] taken.channels[i].subscribers@.contains(other) == target.contains(
                    (before.channels[i].name@, other),
                ) by {
                before.lemma_entry(i, other);
            }
            taken.lemma_rewritten(before, target);
        }
        if self.channels[at].subscribers.is_empty() {
            self.channels.swap_remove(at);
            proof {
                self.lemma_dropped(taken, at as int);
            }
            false
        } else {
            true
        }
    }

    /// Subscribes connection `id` to `channel`. A subscription that already
    /// stands is reported and not repeated.
    pub fn add(&mut self, channel: String, id: usize) -> (result: Result<(), PubSubError>)
        requires
            old(self).wf(),
        ensures
            final(self).wf(),
            old(self)@.contains((channel@, id)) ==> {
                &&& result == Err::<(), PubSubError>(PubSubError::AlreadySubscribed)
                &&& final(self)@ == old(self)@
            },
            !old(self)@.contains((channel@, id)) ==> {
                &&& result == Ok::<(), PubSubError>(())
                &&& final(self)@ == old(self)@.insert((channel@, id))
            },
    {
        let ghost before = *self;
        let ghost target = before@.insert((channel@, id));
        match self.position(&channel) {
            Some(at) => {
                let added = self.channels[at].subscribers.insert(id);
                proof {
                    assert forall|i: int, other: usize| 0 <= i < self.channels.len() implies
                        #[trigger] self.channels[i].subscribers@.contains(other)
                            == target.contains((before.channels[i].name@, other)) by {
                        before.lemma_entry(i, other);
                    }
                    assert(self.channels[at as int].name@ == channel@);
                    assert(self.holds(channel@, id));
                    self.lemma_rewritten(before, target);
                    before.lemma_entry(at as int, id);
                    if !added {
                        assert(target =~= before@);
                    }
                    assert(self.inhabited()) by {
                        assert forall|i: int| 0 <= i < self.channels.len() implies !(
                            #[trigger] self.channels[i]
                        ).subscribers@.is_empty() by {
                            if i == at {
                                assert(self.channels[i].subscribers@.contains(id));
                            } else {
                                assert(self.channels[i].subscribers@
                                    == before.channels[i].subscribers@);
                            }
                        }
                    }
                }
                if added {
                    Ok(())
                } else {
                    Err(PubSubError::AlreadySubscribed)
                }
            },
            None => {
                let mut subscribers: BTreeSet<usize> = BTreeSet::new();
                subscribers.insert(id);
                self.channels.push(Channel { name: channel, subscribers });
                proof {
                    before.lemma_unnamed(channel@, id);
                    let last: int = self.channels.len() - 1;
                    assert(self.channels[last].name@ == channel@);
                    assert(self.channels[last].subscribers@.contains(id));
                    assert(self.holds(channel@, id));
                    assert forall|pair: (Seq<char>, usize)|
                        self@.contains(pair) == target.contains(pair) by {
                        if before.holds(pair.0, pair.1) {
                            let i: int = choose|i: int|
                                0 <= i < before.channels.len()
                                    && #[trigger] before.channels[i].name@ == pair.0
                                    && before.channels[i].subscribers@.contains(pair.1);
                            assert(self.channels[i].name@ == pair.0);
                        }
                    }
                    assert(self@ =~= target);
                    assert(self.inhabited()) by {
                        assert forall|i: int| 0 <= i < self.channels.len() implies !(
                            #[trigger] self.channels[i]
                        ).subscribers@.is_empty() by {
                            if i < last {
                                assert(self.channels[i] == before.channels[i]);
                            }
                        }
                    }
                }
                Ok(())
            },
        }
    }

    /// Ends the subscription of connection `id` to `channel`. A subscription
    /// that does not stand, on a channel known or unknown, is reported.
    pub fn remove(&mut self, channel: &String, id: usize) -> (result: Result<(), PubSubError>)
        requires
            old(self).wf(),
        ensures
            final(self).wf(),
            old(self)@.contains((channel@, id)) ==> {
                &&& result == Ok::<(), PubSubError>(())
                &&& final(self)@ == old(self)@.remove((channel@, id))
            },
            !old(self)@.contains((channel@, id)) ==> {
                &&& result == Err::<(), PubSubError>(PubSubError::NotSubscribed)
                &&& final(self)@ == old(self)@
            },
    {
        match self.position(channel) {
            Some(at) => {
                proof {
                    self.lemma_entry(at as int, id);
                }
                if self.channels[at].subscribers.contains(&id) {
                    self.unlist(at, id);
                    Ok(())
                } else {
                    Err(PubSubError::NotSubscribed)
                }
            },
            None => {
                proof {
                    self.lemma_unnamed(channel@, id);
                }
                Err(PubSubError::NotSubscribed)
            },
        }
    }

    /// Ends every subscription of connection `id`. There is nothing to
    /// report: a connection without subscriptions loses none.
    pub fn remove_everywhere(&mut self, id: usize)
        requires
            old(self).wf(),
        ensures
            final(self).wf(),
            final(self)@ == without_connection(old(self)@, id),
    {
        let ghost before = *self;
        let mut at: usize = 0;
        while at < self.channels.len()
            invariant
                self.wf(),
                at <= self.channels.len(),
                forall|pair: (Seq<char>, usize)| #[trigger]
                    self@.contains(pair) ==> before@.contains(pair),
                forall|pair: (Seq<char>, usize)| #[trigger]
                    before@.contains(pair) && pair.1 != id ==> self@.contains(pair),
                forall|i: int|
                    0 <= i < at ==> !(#[trigger] self.channels[i]).subscribers@.contains(id),
            decreases self.channels.len() - at,
        {
            if self.channels[at].subscribers.contains(&id) {
                let kept = self.unlist(at, id);
                if kept {
                    at = at + 1;
                }
            } else {
                at = at + 1;
            }
        }
        proof {
            assert forall|pair: (Seq<char>, usize)|
                self@.contains(pair) == without_connection(before@, id).contains(pair) by {
                if self.holds(pair.0, pair.1) {
                    let i: int = choose|i: int|
                        0 <= i < self.channels.len() && #[trigger] self.channels[i].name@ == pair.0
                            && self.channels[i].subscribers@.contains(pair.1);
                    assert(!self.channels[i].subscribers@.contains(id));
                }
            }
            assert(self@ =~= without_connection(before@, id));
        }
    }

    /// The connections subscribed to `channel` at this moment, each once. A
    /// channel that nobody is subscribed to, or that was never named, has
    /// none.
    pub fn subscribers_of(&self, channel: &String) -> (subscribers: Vec<usize>)
        requires
            self.wf(),
        ensures
            subscribers@.no_duplicates(),
            subscribers@.to_set() == subscribers_in(self@, channel@),
    {
        let mut subscribers: Vec<usize> = Vec::new();
        match self.position(channel) {
            Some(at) => {
                let listed = &self.channels[at].subscribers;
                let ghost all = listed.iter().remaining();
                for id in ids: listed.iter()
                    invariant
                        ids.seq() == all,
                        subscribers@ == all.unref().take(ids.index()),
                {
                    subscribers.push(*id);
                    proof {
                        let done: int = ids.index();
                        assert(all.unref().take(done + 1) =~= all.unref().take(done).push(*id));
                    }
                }
                proof {
                    assert(subscribers@ =~= all.unref());
                    assert forall|id: usize|
                        listed@.contains(id) == subscribers_in(self@, channel@).contains(id) by {
                        self.lemma_entry(at as int, id);
                    }
                    assert(listed@ =~= subscribers_in(self@, channel@));
                }
            },
            None => {
                proof {
                    assert forall|id: usize| !subscribers_in(self@, channel@).contains(id) by {
                        self.lemma_unnamed(channel@, id);
                    }
                    assert(subscribers@.to_set() =~= subscribers_in(self@, channel@));
                }
            },
        }
        subscribers
    }
}

} // verus!
