//! The topic registry as a mathematical state machine.
//!
//! A registry is a map from topic names to lists of subscription ids, kept in
//! the order in which the subscriptions were made. Every operation of the
//! broker is a function from one such state to the next, and the contracts of
//! the executable broker say which.

use crate::error::BrokerError;
use vstd::prelude::*;

verus! {

/// The ids of `ids` that are not in `gone`, in the order they had.
pub open spec fn survivors(ids: Seq<nat>, gone: Set<nat>) -> Seq<nat>
    decreases ids.len(),
{
    if ids.len() == 0 {
        ids
    } else if gone.contains(ids.last()) {
        survivors(ids.drop_last(), gone)
    } else {
        survivors(ids.drop_last(), gone).push(ids.last())
    }
}

/// The account of one fan-out: how many subscriptions the message was offered
/// to, and which of them did not take it.
#[verifier::ext_equal]
pub struct DeliveryView {
    pub attempted: nat,
    pub failed: Seq<nat>,
}

impl DeliveryView {
    /// The account of a fan-out that has offered nothing yet.
    pub open spec fn none() -> DeliveryView {
        DeliveryView { attempted: 0, failed: Seq::empty() }
    }

    /// The account after one more offer, to subscription `id`.
    pub open spec fn record(self, id: nat, taken: bool) -> DeliveryView {
        DeliveryView {
            attempted: self.attempted + 1,
            failed: if taken {
                self.failed
            } else {
                self.failed.push(id)
            },
        }
    }

    /// What the publisher is told: the publish failed only if the message was
    /// offered to someone and nobody took it.
    pub open spec fn verdict(self) -> Result<(), BrokerError> {
        if self.attempted > 0 && self.failed.len() == self.attempted {
            Err(BrokerError::SendFailed)
        } else {
            Ok(())
        }
    }
}

/// The account of offering a message to `ids` in turn, where `taken[i]` tells
/// whether the subscription `ids[i]` took it.
pub open spec fn tally(ids: Seq<nat>, taken: Seq<bool>) -> DeliveryView
    decreases ids.len(),
{
    if ids.len() == 0 {
        DeliveryView::none()
    } else {
        tally(ids.drop_last(), taken.drop_last()).record(ids.last(), taken.last())
    }
}

/// The state of a registry.
#[verifier::ext_equal]
pub struct BrokerState {
    /// The subscriptions of each topic, oldest first.
    pub topics: Map<Seq<char>, Seq<nat>>,
    /// How many subscription ids have been handed out.
    pub issued: nat,
    /// How many messages the queue of a subscription holds at most.
    pub capacity: nat,
}

impl BrokerState {
    /// A registry without topics.
    pub open spec fn empty(capacity: nat) -> BrokerState {
        BrokerState { topics: Map::empty(), issued: 0, capacity }
    }

    /// Whether the topic exists.
    pub open spec fn has_topic(self, name: Seq<char>) -> bool {
        self.topics.contains_key(name)
    }

    /// The subscriptions of a topic, oldest first; none for a topic that
    /// does not exist.
    pub open spec fn subscribers(self, name: Seq<char>) -> Seq<nat> {
        if self.has_topic(name) {
            self.topics[name]
        } else {
            Seq::empty()
        }
    }

    /// Every id in the registry was handed out, and stands in one place
    /// only: no list holds an id twice, and no two lists share one.
    pub open spec fn wf(self) -> bool {
        &&& forall|name: Seq<char>|
            self.topics.contains_key(name) ==> (#[trigger] self.topics[name]).no_duplicates()
        &&& forall|name: Seq<char>, id: nat|
            self.topics.contains_key(name) && #[trigger] self.topics[name].contains(id) ==> id
                < self.issued
        &&& forall|a: Seq<char>, b: Seq<char>, id: nat|
            self.topics.contains_key(a) && self.topics.contains_key(b) && a != b
                && #[trigger] self.topics[a].contains(id) ==> !#[trigger] self.topics[b].contains(
                id,
            )
    }

    /// `create_topic`: a new topic starts without subscriptions; a topic that
    /// exists is left as it is, and the call is refused.
    pub open spec fn create_topic(self, name: Seq<char>) -> (BrokerState, Result<(), BrokerError>) {
        if self.has_topic(name) {
            (self, Err(BrokerError::TopicExists))
        } else {
            (BrokerState { topics: self.topics.insert(name, Seq::empty()), ..self }, Ok(()))
        }
    }

    /// `subscribe`: the next id joins the end of the topic's list, and the
    /// topic comes to exist if it did not. Gives the new state and the id.
    pub open spec fn subscribe(self, name: Seq<char>) -> (BrokerState, nat) {
        (
            BrokerState {
                topics: self.topics.insert(name, self.subscribers(name).push(self.issued)),
                issued: self.issued + 1,
                ..self
            },
            self.issued,
        )
    }

    /// The state with the subscriptions `gone` struck from a topic's list. A
    /// topic that does not exist is not created.
    pub open spec fn without(self, name: Seq<char>, gone: Set<nat>) -> BrokerState {
        if self.has_topic(name) {
            BrokerState {
                topics: self.topics.insert(name, survivors(self.topics[name], gone)),
                ..self
            }
        } else {
            self
        }
    }

    /// `unsubscribe`: the subscription, if the topic has it, leaves the
    /// topic's list. Only a topic that does not exist is an error.
    pub open spec fn unsubscribe(self, name: Seq<char>, id: nat) -> (
        BrokerState,
        Result<(), BrokerError>,
    ) {
        if self.has_topic(name) {
            (self.without(name, set![id]), Ok(()))
        } else {
            (self, Err(BrokerError::TopicNotFound))
        }
    }

    /// `publish`: the message is offered to every subscription of the topic,
    /// oldest first, and `taken[i]` tells whether the `i`-th took it. Those
    /// that did not are struck from the topic's list.
    pub open spec fn publish(self, topic: Seq<char>, taken: Seq<bool>) -> (
        BrokerState,
        Result<(), BrokerError>,
    ) {
        let report = tally(self.subscribers(topic), taken);
        (self.without(topic, report.failed.to_set()), report.verdict())
    }

    /// The state with the subscriptions `gone` struck, each from the topic it
    /// is named with. No topic is created or removed.
    pub open spec fn without_all(self, gone: Set<(Seq<char>, nat)>) -> BrokerState {
        BrokerState {
            topics: Map::new(
                |name: Seq<char>| self.topics.contains_key(name),
                |name: Seq<char>| survivors(self.topics[name], ids_under(gone, name)),
            ),
            ..self
        }
    }
}

/// The ids that `held` names together with the topic `name`.
pub open spec fn ids_under(held: Set<(Seq<char>, nat)>, name: Seq<char>) -> Set<nat> {
    Set::new(|id: nat| held.contains((name, id)))
}

/// An id survives exactly if it was there and is not gone.
pub proof fn lemma_survivors_membership(ids: Seq<nat>, gone: Set<nat>)
    ensures
        forall|x: nat| #[trigger]
            survivors(ids, gone).contains(x) <==> ids.contains(x) && !gone.contains(x),
    decreases ids.len(),
{
    if ids.len() > 0 {
        let rest = ids.drop_last();
        let last = ids.last();
        let kept = survivors(rest, gone);
        lemma_survivors_membership(rest, gone);
        assert forall|x: nat| #[trigger]
            survivors(ids, gone).contains(x) implies ids.contains(x) && !gone.contains(x) by {
            let found = survivors(ids, gone);
            let i = choose|i: int| 0 <= i < found.len() && found[i] == x;
            if !gone.contains(last) && i == kept.len() {
                assert(ids[ids.len() - 1] == x);
            } else {
                assert(kept[i] == x);
                assert(kept.contains(x));
                let m = choose|m: int| 0 <= m < rest.len() && rest[m] == x;
                assert(ids[m] == x);
            }
        }
        assert forall|x: nat| ids.contains(x) && !gone.contains(x) implies #[trigger] survivors(
            ids,
            gone,
        ).contains(x) by {
            let m = choose|m: int| 0 <= m < ids.len() && ids[m] == x;
            if m == ids.len() - 1 {
                assert(survivors(ids, gone)[kept.len() as int] == x);
            } else {
                assert(rest[m] == x);
                assert(rest.contains(x));
                assert(kept.contains(x));
                let i = choose|i: int| 0 <= i < kept.len() && kept[i] == x;
                assert(survivors(ids, gone)[i] == x);
            }
        }
    }
}

/// Where no id stood twice, none does among the survivors.
pub proof fn lemma_survivors_distinct(ids: Seq<nat>, gone: Set<nat>)
    requires
        ids.no_duplicates(),
    ensures
        survivors(ids, gone).no_duplicates(),
    decreases ids.len(),
{
    if ids.len() > 0 {
        let rest = ids.drop_last();
        let kept = survivors(rest, gone);
        lemma_survivors_distinct(rest, gone);
        lemma_survivors_membership(rest, gone);
        if !gone.contains(ids.last()) {
            assert forall|i: int| 0 <= i < kept.len() implies kept[i] != ids.last() by {
                assert(kept.contains(kept[i]));
                let m = choose|m: int| 0 <= m < rest.len() && rest[m] == kept[i];
                assert(ids[m] == kept[i]);
            }
        }
    }
}

/// Where nothing is gone, every id survives.
pub proof fn lemma_survivors_all(ids: Seq<nat>)
    ensures
        survivors(ids, Set::empty()) == ids,
    decreases ids.len(),
{
    if ids.len() > 0 {
        lemma_survivors_all(ids.drop_last());
        assert(ids.drop_last().push(ids.last()) =~= ids);
    }
}

/// Striking twice is striking the union.
pub proof fn lemma_survivors_twice(ids: Seq<nat>, first: Set<nat>, then: Set<nat>)
    ensures
        survivors(survivors(ids, first), then) == survivors(ids, first.union(then)),
    decreases ids.len(),
{
    if ids.len() > 0 {
        let rest = ids.drop_last();
        lemma_survivors_twice(rest, first, then);
        if !first.contains(ids.last()) {
            assert(survivors(rest, first).push(ids.last()).drop_last() =~= survivors(rest, first));
        }
    }
}

/// Where every subscription takes the message, the account names no failure.
pub proof fn lemma_tally_all_taken(ids: Seq<nat>, taken: Seq<bool>)
    requires
        taken.len() == ids.len(),
        forall|i: int| 0 <= i < taken.len() ==> taken[i],
    ensures
        tally(ids, taken).failed == Seq::<nat>::empty(),
    decreases ids.len(),
{
    if ids.len() > 0 {
        lemma_tally_all_taken(ids.drop_last(), taken.drop_last());
    }
}

/// The account names as failed exactly the subscriptions that did not take
/// the message, and it names all of them exactly if none took it.
pub proof fn lemma_tally_failed(ids: Seq<nat>, taken: Seq<bool>)
    requires
        taken.len() == ids.len(),
    ensures
        tally(ids, taken).attempted == ids.len(),
        tally(ids, taken).failed.len() <= ids.len(),
        forall|i: int|
            0 <= i < ids.len() && !taken[i] ==> tally(ids, taken).failed.contains(ids[i]),
        forall|id: nat| #[trigger]
            tally(ids, taken).failed.contains(id) ==> exists|i: int|
                0 <= i < ids.len() && ids[i] == id && !taken[i],
        tally(ids, taken).failed.len() == ids.len() <==> forall|i: int|
            0 <= i < ids.len() ==> !taken[i],
    decreases ids.len(),
{
    if ids.len() > 0 {
        let rest = ids.drop_last();
        let rest_taken = taken.drop_last();
        let before = tally(rest, rest_taken).failed;
        let after = tally(ids, taken).failed;
        let last = ids.len() - 1;
        lemma_tally_failed(rest, rest_taken);
        assert forall|i: int| 0 <= i < ids.len() && !taken[i] implies after.contains(ids[i]) by {
            if i < last {
                assert(!rest_taken[i]);
                assert(before.contains(rest[i]));
                let k = choose|k: int| 0 <= k < before.len() && before[k] == rest[i];
                assert(after[k] == ids[i]);
            } else {
                assert(after[after.len() - 1] == ids[i]);
            }
        }
        assert forall|id: nat| #[trigger] after.contains(id) implies exists|i: int|
            0 <= i < ids.len() && ids[i] == id && !taken[i] by {
            let k = choose|k: int| 0 <= k < after.len() && after[k] == id;
            if k < before.len() {
                assert(before[k] == id);
                assert(before.contains(id));
                let i = choose|i: int| 0 <= i < rest.len() && rest[i] == id && !rest_taken[i];
                assert(ids[i] == id && !taken[i]);
            } else {
                assert(ids[last] == id && !taken[last]);
            }
        }
        if after.len() == ids.len() {
            assert(before.len() == rest.len());
            assert forall|i: int| 0 <= i < ids.len() implies !taken[i] by {
                if i < last {
                    assert(!rest_taken[i]);
                }
            }
        }
        if forall|i: int| 0 <= i < ids.len() ==> !taken[i] {
            assert forall|i: int| 0 <= i < rest.len() implies !rest_taken[i] by {
                assert(!taken[i]);
            }
        }
    }
}

/// Creating a topic keeps the registry well formed.
pub proof fn lemma_create_topic_wf(s: BrokerState, name: Seq<char>)
    requires
        s.wf(),
    ensures
        s.create_topic(name).0.wf(),
{
}

/// Subscribing keeps the registry well formed.
pub proof fn lemma_subscribe_wf(s: BrokerState, name: Seq<char>)
    requires
        s.wf(),
    ensures
        s.subscribe(name).0.wf(),
{
    let list = s.subscribers(name);
    let grown = list.push(s.issued);
    assert forall|id: nat| #[trigger] grown.contains(id) implies (s.has_topic(name)
        && s.topics[name].contains(id)) || id == s.issued by {
        let i = choose|i: int| 0 <= i < grown.len() && grown[i] == id;
        if i < list.len() {
            assert(list[i] == id);
            assert(list.contains(id));
        }
    }
    assert(grown.no_duplicates()) by {
        assert forall|i: int, j: int|
            0 <= i < grown.len() && 0 <= j < grown.len() && i != j implies grown[i] != grown[j] by {
            if i < list.len() {
                assert(list.contains(list[i]));
            }
            if j < list.len() {
                assert(list.contains(list[j]));
            }
        }
    }
}

/// Striking subscriptions from a topic keeps the registry well formed.
pub proof fn lemma_without_wf(s: BrokerState, name: Seq<char>, gone: Set<nat>)
    requires
        s.wf(),
    ensures
        s.without(name, gone).wf(),
{
    let after = s.without(name, gone);
    if s.has_topic(name) {
        lemma_survivors_membership(s.topics[name], gone);
        lemma_survivors_distinct(s.topics[name], gone);
        assert forall|n: Seq<char>, id: nat|
            after.has_topic(n) && #[trigger] after.topics[n].contains(
                id,
            ) implies s.topics[n].contains(id) by {
            if n == name {
                assert(survivors(s.topics[name], gone).contains(id));
            }
        }
    }
}

/// Striking nothing changes nothing.
pub proof fn lemma_without_nothing(s: BrokerState, name: Seq<char>)
    ensures
        s.without(name, Set::empty()) == s,
{
    if s.has_topic(name) {
        lemma_survivors_all(s.topics[name]);
        assert(s.without(name, Set::empty()).topics =~= s.topics);
    }
}

/// Striking from one topic twice is striking the union.
pub proof fn lemma_without_twice(s: BrokerState, name: Seq<char>, first: Set<nat>, then: Set<nat>)
    ensures
        s.without(name, first).without(name, then) == s.without(name, first.union(then)),
{
    if s.has_topic(name) {
        lemma_survivors_twice(s.topics[name], first, then);
        assert(s.without(name, first).without(name, then).topics =~= s.without(
            name,
            first.union(then),
        ).topics);
    }
}

/// Ending one more subscription, after those of `gone`, strikes it too.
pub proof fn lemma_without_all_step(
    s: BrokerState,
    gone: Set<(Seq<char>, nat)>,
    name: Seq<char>,
    id: nat,
)
    ensures
        s.without_all(gone).unsubscribe(name, id).0 == s.without_all(gone.insert((name, id))),
{
    let before = s.without_all(gone);
    let after = s.without_all(gone.insert((name, id)));
    assert forall|n: Seq<char>| s.topics.contains_key(n) implies #[trigger] before.unsubscribe(
        name,
        id,
    ).0.topics[n] == after.topics[n] by {
        if n == name {
            lemma_survivors_twice(s.topics[n], ids_under(gone, n), set![id]);
            assert(ids_under(gone, n).union(set![id]) =~= ids_under(gone.insert((name, id)), n));
        } else {
            assert(ids_under(gone, n) =~= ids_under(gone.insert((name, id)), n));
        }
    }
    assert(before.unsubscribe(name, id).0.topics =~= after.topics);
}

/// Striking no subscription at all changes nothing.
pub proof fn lemma_without_all_nothing(s: BrokerState)
    ensures
        s.without_all(Set::empty()) == s,
{
    assert forall|n: Seq<char>| s.topics.contains_key(n) implies #[trigger] s.without_all(
        Set::empty(),
    ).topics[n] == s.topics[n] by {
        assert(ids_under(Set::empty(), n) =~= Set::empty());
        lemma_survivors_all(s.topics[n]);
    }
    assert(s.without_all(Set::empty()).topics =~= s.topics);
}

} // verus!
