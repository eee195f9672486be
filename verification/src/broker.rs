//! The topic registry: who is subscribed to what, and the fan-out of a
//! published message to the queues of the subscribers.
//!
//! A [`Broker`] is owned by one caller at a time. A program that serves
//! several connections keeps it behind a lock, and uses [`Broker::snapshot`],
//! [`deliver`] and [`Broker::settle`] to publish without holding that lock
//! while messages are handed out.
//!
//! # Slow subscribers
//!
//! The queue of a subscription is bounded: it holds up to
//! [`DEFAULT_QUEUE_CAPACITY`] messages, or what [`Broker::with_queue_capacity`]
//! was given. The publisher never waits for room. A subscription whose queue
//! is full when a message is offered is treated like one whose connection is
//! gone: it does not get the message, and it is removed from the registry.
//! What its queue holds by then can still be read from the receiving end,
//! which after that reports the queue as closed.

use crate::channel::{max_queue_capacity, offer, open_queue, share};
use crate::error::BrokerError;
use crate::message::Message;
use crate::model::{
    lemma_create_topic_wf, lemma_subscribe_wf, lemma_without_wf, survivors, tally, BrokerState,
    DeliveryView,
};
use tokio::sync::mpsc::{Receiver, Sender};
use vstd::hash_map::StringHashMap;
use vstd::prelude::*;

verus! {

/// The capacity of a subscription's queue in a broker made by [`Broker::new`].
pub const DEFAULT_QUEUE_CAPACITY: usize = 1024;

/// The token that names one subscription. A broker hands out each token once.
#[derive(Clone, Copy, Debug, PartialEq, Eq, Hash)]
pub struct SubscriptionId {
    serial: u64,
}

impl View for SubscriptionId {
    type V = nat;

    closed spec fn view(&self) -> nat {
        self.serial as nat
    }
}

/// The registry's side of one subscription: its id, and the sending end of
/// its queue.
#[derive(Debug)]
pub struct Subscriber {
    id: SubscriptionId,
    outbox: Sender<Message>,
}

impl View for Subscriber {
    type V = nat;

    /// The id of the subscription.
    closed spec fn view(&self) -> nat {
        self.id@
    }
}

impl Subscriber {
    /// The id of the subscription.
    pub fn id(&self) -> (id: SubscriptionId)
        ensures
            id@ == self@,
    {
        self.id
    }
}

/// The ids of a list of subscribers.
pub open spec fn ids_of(subscribers: Seq<Subscriber>) -> Seq<nat> {
    Seq::new(subscribers.len(), |i: int| subscribers[i]@)
}

/// The tokens of a list of subscription ids.
pub open spec fn tokens(ids: Seq<SubscriptionId>) -> Seq<nat> {
    Seq::new(ids.len(), |i: int| ids[i]@)
}

/// The account of one fan-out: how many subscriptions the message was offered
/// to, and which of them did not take it.
#[derive(Debug)]
pub struct Delivery {
    attempted: usize,
    failed: Vec<SubscriptionId>,
}

impl View for Delivery {
    type V = DeliveryView;

    closed spec fn view(&self) -> DeliveryView {
        DeliveryView { attempted: self.attempted as nat, failed: tokens(self.failed@) }
    }
}

impl Delivery {
    /// The account of a fan-out that has offered nothing yet.
    pub fn new() -> (report: Delivery)
        ensures
            report@ == DeliveryView::none(),
    {
        Delivery { attempted: 0, failed: Vec::new() }
    }

    /// Notes one more offer, to subscription `id`, and whether it was taken.
    pub fn record(&mut self, id: SubscriptionId, taken: bool)
        requires
            old(self)@.attempted < usize::MAX,
        ensures
            final(self)@ == old(self)@.record(id@, taken),
    {
        self.attempted = self.attempted + 1;
        if !taken {
            self.failed.push(id);
        }
    }

    /// The number of subscriptions that the message was offered to.
    pub fn attempted(&self) -> (count: usize)
        ensures
            count == self@.attempted,
    {
        self.attempted
    }

    /// The subscriptions that did not take the message, in the order in which
    /// it was offered.
    pub fn failed(&self) -> (ids: &Vec<SubscriptionId>)
        ensures
            tokens(ids@) == self@.failed,
    {
        &self.failed
    }

    /// What the publisher is told: `SendFailed` if the message was offered to
    /// someone and nobody took it, success otherwise.
    pub fn verdict(&self) -> (res: Result<(), BrokerError>)
        ensures
            res == self@.verdict(),
    {
        if self.attempted > 0 && self.failed.len() == self.attempted {
            Err(BrokerError::SendFailed)
        } else {
            Ok(())
        }
    }
}

/// Tells whether `id` is one of `ids`.
fn listed(ids: &Vec<SubscriptionId>, id: SubscriptionId) -> (found: bool)
    ensures
        found == tokens(ids@).to_set().contains(id@),
{
    let mut i: usize = 0;
    while i < ids.len()
        invariant
            i <= ids.len(),
            forall|k: int| 0 <= k < i ==> tokens(ids@)[k] != id@,
        decreases ids.len() - i,
    {
        if ids[i].serial == id.serial {
            assert(tokens(ids@)[i as int] == id@);
            return true;
        }
        i += 1;
    }
    false
}

/// Removes the subscribers whose id is one of `gone`, and keeps the others
/// in their order.
fn strike(subscribers: &mut Vec<Subscriber>, gone: &Vec<SubscriptionId>)
    ensures
        ids_of(final(subscribers)@) == survivors(
            ids_of(old(subscribers)@),
            tokens(gone@).to_set(),
        ),
{
    let ghost all = ids_of(subscribers@);
    let ghost out = tokens(gone@).to_set();
    let ghost mut seen: int = 0;
    let mut at: usize = 0;
    assert(all.take(0) =~= Seq::empty());
    while at < subscribers.len()
        invariant
            0 <= seen <= all.len(),
            at <= subscribers.len(),
            subscribers.len() - at == all.len() - seen,
            at == survivors(all.take(seen), out).len(),
            ids_of(subscribers@) == survivors(all.take(seen), out) + all.skip(seen),
            out == tokens(gone@).to_set(),
        decreases all.len() - seen,
    {
        let ghost kept = survivors(all.take(seen), out);
        let ghost before = subscribers@;
        assert(ids_of(before)[at as int] == all.skip(seen)[0]);
        assert(all.take(seen + 1).drop_last() =~= all.take(seen));
        if listed(gone, subscribers[at].id) {
            subscribers.remove(at);
            assert forall|k: int| 0 <= k < subscribers.len() implies ids_of(subscribers@)[k]
                == (kept + all.skip(seen + 1))[k] by {
                if k < at {
                    assert(ids_of(before)[k] == kept[k]);
                } else {
                    assert(ids_of(before)[k + 1] == all.skip(seen)[k + 1 - at]);
                }
            }
        } else {
            at += 1;
        }
        proof {
            seen = seen + 1;
        }
    }
}

struct Topic {
    name: String,
    subscribers: Vec<Subscriber>,
}

/// The topic registry.
pub struct Broker {
    /// For each topic name, the place of the topic in `topics`.
    index: StringHashMap<usize>,
    topics: Vec<Topic>,
    issued: u64,
    queue_capacity: usize,
}

impl View for Broker {
    type V = BrokerState;

    closed spec fn view(&self) -> BrokerState {
        BrokerState {
            topics: Map::new(
                |name: Seq<char>| self.index@.contains_key(name),
                |name: Seq<char>| ids_of(self.topics@[self.index@[name] as int].subscribers@),
            ),
            issued: self.issued as nat,
            capacity: self.queue_capacity as nat,
        }
    }
}

impl Broker {
    /// The index and the list of topics agree: a name leads to the topic of
    /// that name, and every topic is found under its name.
    pub closed spec fn indexed(&self) -> bool {
        &&& forall|name: Seq<char>| #[trigger]
            self.index@.contains_key(name) ==> self.index@[name] < self.topics.len()
                && self.topics@[self.index@[name] as int].name@ == name
        &&& forall|i: int|
            0 <= i < self.topics.len() ==> self.index@.contains_key(
                (#[trigger] self.topics@[i]).name@,
            ) && self.index@[self.topics@[i].name@] == i
    }

    /// What every broker satisfies between two calls.
    pub open spec fn wf(&self) -> bool {
        &&& self.indexed()
        &&& self@.wf()
        &&& 0 < self@.capacity <= max_queue_capacity()
    }

    /// A registry without topics, whose queues hold up to
    /// [`DEFAULT_QUEUE_CAPACITY`] messages.
    pub fn new() -> (broker: Broker)
        ensures
            broker.wf(),
            broker@ == BrokerState::empty(DEFAULT_QUEUE_CAPACITY as nat),
    {
        Broker {
            index: StringHashMap::new(),
            topics: Vec::new(),
            issued: 0,
            queue_capacity: DEFAULT_QUEUE_CAPACITY,
        }
    }

    /// A registry without topics, whose queues hold up to `capacity`
    /// messages; `None` for a capacity that no queue can have.
    pub fn with_queue_capacity(capacity: usize) -> (made: Option<Broker>)
        ensures
            made is Some <==> 0 < capacity <= max_queue_capacity(),
            made matches Some(broker) ==> broker.wf() && broker@ == BrokerState::empty(
                capacity as nat,
            ),
    {
        if capacity == 0 || capacity > usize::MAX / 8 {
            return None;
        }
        Some(
            Broker {
                index: StringHashMap::new(),
                topics: Vec::new(),
                issued: 0,
                queue_capacity: capacity,
            },
        )
    }

    /// Tells whether the topic exists.
    pub fn has_topic(&self, name: &str) -> (found: bool)
        ensures
            found == self@.has_topic(name@),
    {
        self.index.contains_key(name)
    }

    /// Adds a topic that does not exist yet, and gives its place.
    fn add_topic(&mut self, name: &str) -> (slot: usize)
        requires
            old(self).wf(),
            !old(self)@.has_topic(name@),
        ensures
            final(self).wf(),
            final(self)@ == old(self)@.create_topic(name@).0,
            final(self).index@.contains_key(name@),
            final(self).index@[name@] == slot,
    {
        let slot = self.topics.len();
        self.topics.push(Topic { name: name.to_string(), subscribers: Vec::new() });
        self.index.insert(name.to_string(), slot);
        proof {
            assert(ids_of(self.topics@[slot as int].subscribers@) =~= Seq::empty());
            assert(self@.topics =~= old(self)@.topics.insert(name@, Seq::empty()));
            lemma_create_topic_wf(old(self)@, name@);
        }
        slot
    }

    /// Creates a topic without subscriptions. A topic that exists is not
    /// replaced: the call fails with `TopicExists` and changes nothing.
    pub fn create_topic(&mut self, name: &str) -> (res: Result<(), BrokerError>)
        requires
            old(self).wf(),
        ensures
            final(self).wf(),
            final(self)@ == old(self)@.create_topic(name@).0,
            res == old(self)@.create_topic(name@).1,
    {
        if self.index.contains_key(name) {
            return Err(BrokerError::TopicExists);
        }
        self.add_topic(name);
        Ok(())
    }

    /// Tells whether one more subscription can be made: the supply of ids is
    /// not used up.
    pub fn can_subscribe(&self) -> (room: bool)
        ensures
            room == (self@.issued < u64::MAX),
    {
        self.issued < u64::MAX
    }

    /// Subscribes to a topic, which comes to exist if it did not. Gives the
    /// id of the new subscription and the receiving end of its queue.
    pub fn subscribe(&mut self, name: &str) -> (ticket: (SubscriptionId, Receiver<Message>))
        requires
            old(self).wf(),
            old(self)@.issued < u64::MAX,
        ensures
            final(self).wf(),
            final(self)@ == old(self)@.subscribe(name@).0,
            ticket.0@ == old(self)@.subscribe(name@).1,
    {
        let slot = match self.index.get(name) {
            Some(slot) => *slot,
            None => self.add_topic(name),
        };
        let ghost before = *self;
        let (outbox, inbox) = open_queue(self.queue_capacity);
        let id = SubscriptionId { serial: self.issued };
        self.issued = self.issued + 1;
        self.topics[slot].subscribers.push(Subscriber { id, outbox });
        proof {
            assert(before@.subscribers(name@) == old(self)@.subscribers(name@));
            assert forall|n: Seq<char>| #[trigger]
                self@.topics.contains_key(n) implies self@.topics[n] == old(self)@.subscribe(
                name@,
            ).0.topics[n] by {
                if n != name@ {
                    assert(before@.topics[n] == old(self)@.topics[n]);
                }
            }
            lemma_subscribe_wf(old(self)@, name@);
        }
        (id, inbox)
    }

    /// Ends a subscription. An id that the topic does not hold changes
    /// nothing and is no error; only a topic that does not exist is one.
    pub fn unsubscribe(&mut self, name: &str, id: SubscriptionId) -> (res: Result<(), BrokerError>)
        requires
            old(self).wf(),
        ensures
            final(self).wf(),
            final(self)@ == old(self)@.unsubscribe(name@, id@).0,
            res == old(self)@.unsubscribe(name@, id@).1,
    {
        let slot = match self.index.get(name) {
            Some(slot) => *slot,
            None => {
                return Err(BrokerError::TopicNotFound);
            },
        };
        let gone = vec![id];
        assert(tokens(gone@).to_set() =~= set![id@]) by {
            assert(tokens(gone@)[0] == id@);
        }
        self.strike_from(slot, name, &gone);
        Ok(())
    }

    /// Strikes subscriptions from the topic at `slot`.
    fn strike_from(&mut self, slot: usize, name: &str, gone: &Vec<SubscriptionId>)
        requires
            old(self).wf(),
            old(self).index@.contains_key(name@),
            old(self).index@[name@] == slot,
        ensures
            final(self).wf(),
            final(self)@ == old(self)@.without(name@, tokens(gone@).to_set()),
    {
        strike(&mut self.topics[slot].subscribers, gone);
        proof {
            assert(self@.topics =~= old(self)@.without(name@, tokens(gone@).to_set()).topics);
            lemma_without_wf(old(self)@, name@, tokens(gone@).to_set());
        }
    }

    /// The subscribers of a topic as they are now, oldest first: new handles
    /// to their queues, for handing out a message while the registry itself
    /// is free for others. None for a topic that does not exist.
    pub fn snapshot(&self, name: &str) -> (targets: Vec<Subscriber>)
        requires
            self.wf(),
        ensures
            ids_of(targets@) == self@.subscribers(name@),
    {
        let mut targets: Vec<Subscriber> = Vec::new();
        let slot = match self.index.get(name) {
            Some(slot) => *slot,
            None => {
                return targets;
            },
        };
        let list = &self.topics[slot].subscribers;
        let mut i: usize = 0;
        while i < list.len()
            invariant
                i <= list.len(),
                targets.len() == i,
                ids_of(targets@) == ids_of(list@).take(i as int),
            decreases list.len() - i,
        {
            let subscriber = &list[i];
            let ghost before = targets@;
            targets.push(Subscriber { id: subscriber.id, outbox: share(&subscriber.outbox) });
            assert forall|k: int| 0 <= k < i + 1 implies ids_of(targets@)[k] == ids_of(
                list@,
            )[k] by {
                if k < i {
                    assert(ids_of(before)[k] == ids_of(list@).take(i as int)[k]);
                }
            }
            i += 1;
        }
        targets
    }

    /// Closes a fan-out: strikes from the topic the subscriptions that did
    /// not take the message, and tells the publisher how it went.
    ///
    /// The topic's list may have changed since the message was handed out:
    /// subscriptions that joined meanwhile stay, and a subscription that has
    /// left already is not missed.
    pub fn settle(&mut self, topic: &str, report: &Delivery) -> (res: Result<(), BrokerError>)
        requires
            old(self).wf(),
        ensures
            final(self).wf(),
            final(self)@ == old(self)@.without(topic@, report@.failed.to_set()),
            res == report@.verdict(),
    {
        match self.index.get(topic) {
            Some(slot) => {
                let slot = *slot;
                self.strike_from(slot, topic, &report.failed);
            },
            None => {},
        }
        report.verdict()
    }

    /// Publishes a message: offers a copy to every subscription of its topic,
    /// oldest first, and strikes those that did not take it. A topic without
    /// subscriptions, or one that does not exist, makes the call succeed with
    /// nothing done; the call fails with `SendFailed` only if there were
    /// subscriptions and none of them took the message.
    ///
    /// Which subscriptions take the message is not for the registry to
    /// decide: the contract holds for some list `taken` of their answers.
    pub fn publish(&mut self, msg: Message) -> (res: Result<(), BrokerError>)
        requires
            old(self).wf(),
        ensures
            final(self).wf(),
            exists|taken: Seq<bool>|
                {
                    &&& taken.len() == old(self)@.subscribers(msg.topic@).len()
                    &&& final(self)@ == (#[trigger] old(self)@.publish(msg.topic@, taken)).0
                    &&& res == old(self)@.publish(msg.topic@, taken).1
                },
            old(self)@.subscribers(msg.topic@).len() == 0 ==> res is Ok && final(self)@ == old(
                self,
            )@,
    {
        let slot = match self.index.get(msg.topic.as_str()) {
            Some(slot) => *slot,
            None => {
                proof {
                    let taken = Seq::<bool>::empty();
                    assert(old(self)@.publish(msg.topic@, taken).0 == old(self)@);
                }
                return Ok(());
            },
        };
        let report = deliver(&self.topics[slot].subscribers, &msg);
        self.strike_from(slot, msg.topic.as_str(), &report.failed);
        proof {
            let ids = old(self)@.subscribers(msg.topic@);
            let taken = choose|taken: Seq<bool>|
                taken.len() == ids.len() && report@ == #[trigger] tally(ids, taken);
            assert(self@ == old(self)@.publish(msg.topic@, taken).0);
        }
        report.verdict()
    }
}

/// Offers a copy of the message to each target in turn, and gives the
/// account. A target whose queue is full, or whose receiving end is gone,
/// does not take the message; the others are offered it all the same.
///
/// Which targets take the message is not for this function to decide: the
/// account is the tally for some list `taken` of their answers.
pub fn deliver(targets: &Vec<Subscriber>, msg: &Message) -> (report: Delivery)
    ensures
        report@.attempted == targets.len(),
        exists|taken: Seq<bool>|
            taken.len() == targets.len() && report@ == #[trigger] tally(ids_of(targets@), taken),
{
    let mut report = Delivery::new();
    let ghost mut taken: Seq<bool> = Seq::empty();
    let ghost ids = ids_of(targets@);
    let mut i: usize = 0;
    while i < targets.len()
        invariant
            i <= targets.len(),
            ids == ids_of(targets@),
            taken.len() == i,
            report@.attempted == i,
            report@ == tally(ids.take(i as int), taken),
        decreases targets.len() - i,
    {
        let target = &targets[i];
        let outcome = offer(&target.outbox, msg.clone());
        let took = outcome.is_ok();
        report.record(target.id, took);
        proof {
            assert(ids.take(i + 1).drop_last() =~= ids.take(i as int));
            assert(taken.push(took).drop_last() =~= taken);
            taken = taken.push(took);
        }
        i += 1;
    }
    assert(ids.take(i as int) =~= ids);
    report
}

} // verus!
