//! What holds of the registry and of the protocol, whatever the state and the
//! input. Each law is proved from the definitions that the contracts of the
//! executable functions are stated with.

use crate::armor::base64_decoded;
use crate::command::{fields, is_space, key_of, lemma_verbs_differ, parsed, CommandView};
use crate::error::BrokerError;
use crate::model::{
    ids_under, lemma_subscribe_wf, lemma_survivors_distinct, lemma_survivors_membership,
    lemma_survivors_twice, lemma_tally_all_taken, lemma_tally_failed, lemma_without_all_nothing,
    lemma_without_nothing, lemma_without_wf, survivors, tally, BrokerState,
};
use vstd::prelude::*;

verus! {

/// A topic is created once. Creating it again is refused with `TopicExists`
/// and leaves the registry, and with it the topic's subscriptions, as the
/// first call left them.
pub proof fn law_second_create_is_refused(s: BrokerState, name: Seq<char>)
    ensures
        ({
            let first = s.create_topic(name);
            let second = first.0.create_topic(name);
            &&& second.1 == Err::<(), BrokerError>(BrokerError::TopicExists)
            &&& second.0 == first.0
            &&& second.0.subscribers(name) == first.0.subscribers(name)
        }),
{
}

/// Creating a topic that exists is refused and changes nothing, whoever
/// made the topic and whoever has subscribed to it since.
pub proof fn law_create_keeps_existing_topic(s: BrokerState, name: Seq<char>)
    requires
        s.has_topic(name),
    ensures
        s.create_topic(name).1 == Err::<(), BrokerError>(BrokerError::TopicExists),
        s.create_topic(name).0 == s,
{
}

/// Subscribing needs no topic to be there: a topic that does not exist comes
/// to exist, with the new subscription as its only one. In any case the new
/// subscription is the topic's last, and those before it stay.
pub proof fn law_subscribe_creates_topic(s: BrokerState, name: Seq<char>)
    ensures
        ({
            let (after, id) = s.subscribe(name);
            &&& after.has_topic(name)
            &&& after.subscribers(name) == s.subscribers(name).push(id)
            &&& !s.has_topic(name) ==> after.subscribers(name) == seq![id]
        }),
{
}

/// An id is handed out once: the id of a new subscription is held by no
/// subscription made before, on any topic.
pub proof fn law_ids_are_fresh(s: BrokerState, name: Seq<char>, other: Seq<char>)
    requires
        s.wf(),
    ensures
        !s.subscribers(other).contains(s.subscribe(name).1),
        s.subscribe(name).0.issued > s.subscribe(name).1,
{
}

/// The registry after `n` more subscriptions to `topic`, made one after the
/// other.
pub open spec fn subscribe_times(s: BrokerState, topic: Seq<char>, n: nat) -> BrokerState
    decreases n,
{
    if n == 0 {
        s
    } else {
        subscribe_times(s, topic, (n - 1) as nat).subscribe(topic).0
    }
}

/// After `n` subscriptions to a topic, the topic holds the `n` new ids, each
/// once, behind those it held before, and the registry is well formed.
pub proof fn lemma_subscribe_times(s: BrokerState, topic: Seq<char>, n: nat)
    requires
        s.wf(),
    ensures
        subscribe_times(s, topic, n).wf(),
        subscribe_times(s, topic, n).issued == s.issued + n,
        subscribe_times(s, topic, n).subscribers(topic) == s.subscribers(topic) + Seq::new(
            n,
            |i: int| (s.issued + i) as nat,
        ),
    decreases n,
{
    if n > 0 {
        let before = subscribe_times(s, topic, (n - 1) as nat);
        lemma_subscribe_times(s, topic, (n - 1) as nat);
        lemma_subscribe_wf(before, topic);
        assert(before.subscribe(topic).0.subscribers(topic) =~= s.subscribers(topic) + Seq::new(
            n,
            |i: int| (s.issued + i) as nat,
        ));
    } else {
        assert(s.subscribers(topic) =~= s.subscribers(topic) + Seq::new(
            0,
            |i: int| (s.issued + i) as nat,
        ));
    }
}

/// Fan-out. After `n` subscriptions to a topic, a publish to it offers the
/// message to each of them exactly once, in the order in which they were
/// made; where all of them take it, the publish succeeds and every
/// subscription stays.
pub proof fn law_fan_out(s: BrokerState, topic: Seq<char>, n: nat, taken: Seq<bool>)
    requires
        s.wf(),
        taken.len() == s.subscribers(topic).len() + n,
    ensures
        ({
            let after = subscribe_times(s, topic, n);
            let targets = after.subscribers(topic);
            &&& targets == s.subscribers(topic) + Seq::new(n, |i: int| (s.issued + i) as nat)
            &&& targets.no_duplicates()
            &&& tally(targets, taken).attempted == targets.len()
            &&& (forall|i: int| 0 <= i < taken.len() ==> taken[i]) ==> after.publish(topic, taken)
                == (after, Ok::<(), BrokerError>(()))
        }),
{
    let after = subscribe_times(s, topic, n);
    let targets = after.subscribers(topic);
    lemma_subscribe_times(s, topic, n);
    lemma_tally_failed(targets, taken);
    if n > 0 || s.has_topic(topic) {
        assert(after.has_topic(topic)) by {
            if n > 0 {
                assert(after == subscribe_times(s, topic, (n - 1) as nat).subscribe(topic).0);
            }
        }
        assert(after.topics[topic].no_duplicates());
    }
    if forall|i: int| 0 <= i < taken.len() ==> taken[i] {
        lemma_tally_all_taken(targets, taken);
        assert(tally(targets, taken).failed.to_set() =~= Set::empty());
        lemma_without_nothing(after, topic);
    }
}

/// Unsubscribing ends the one subscription that is named. The other
/// subscriptions of the topic stay, in their order, and are what a later
/// publish is offered to; no other topic is touched. The call fails only for
/// a topic that does not exist.
pub proof fn law_unsubscribe_strikes_one(s: BrokerState, topic: Seq<char>, id: nat)
    requires
        s.wf(),
    ensures
        ({
            let after = s.unsubscribe(topic, id).0;
            &&& s.unsubscribe(topic, id).1 is Ok <==> s.has_topic(topic)
            &&& after.wf()
            &&& !after.subscribers(topic).contains(id)
            &&& forall|other: nat|
                other != id ==> (#[trigger] after.subscribers(topic).contains(other)
                    <==> s.subscribers(topic).contains(other))
            &&& after.subscribers(topic) == survivors(s.subscribers(topic), set![id])
            &&& forall|name: Seq<char>|
                name != topic ==> #[trigger] after.subscribers(name) == s.subscribers(name)
            &&& forall|name: Seq<char>| #[trigger] after.has_topic(name) == s.has_topic(name)
        }),
{
    if s.has_topic(topic) {
        lemma_survivors_membership(s.topics[topic], set![id]);
        lemma_without_wf(s, topic, set![id]);
    }
}

/// Publishing to a topic that was never created nor subscribed to succeeds:
/// the message is offered to nobody, and the registry stays as it is.
pub proof fn law_publish_to_unknown_topic(s: BrokerState, topic: Seq<char>, taken: Seq<bool>)
    requires
        !s.has_topic(topic),
    ensures
        s.subscribers(topic).len() == 0,
        tally(s.subscribers(topic), taken).attempted == 0,
        s.publish(topic, taken) == (s, Ok::<(), BrokerError>(())),
{
}

/// A subscription that does not take a message is dropped, and the publisher
/// is not told of it as long as one other subscription took the message: the
/// publish succeeds, the subscriptions that took the message stay, and those
/// that did not are gone from the topic.
pub proof fn law_dead_subscription_is_dropped(s: BrokerState, topic: Seq<char>, taken: Seq<bool>)
    requires
        s.wf(),
        taken.len() == s.subscribers(topic).len(),
        taken.len() == 0 || exists|j: int| 0 <= j < taken.len() && taken[j],
    ensures
        ({
            let (after, res) = s.publish(topic, taken);
            let before = s.subscribers(topic);
            &&& res == Ok::<(), BrokerError>(())
            &&& after.wf()
            &&& forall|i: int|
                0 <= i < before.len() ==> (after.subscribers(topic).contains(#[trigger] before[i])
                    <==> taken[i])
            &&& forall|name: Seq<char>|
                name != topic ==> #[trigger] after.subscribers(name) == s.subscribers(name)
        }),
{
    let before = s.subscribers(topic);
    let report = tally(before, taken);
    let (after, res) = s.publish(topic, taken);
    lemma_tally_failed(before, taken);
    lemma_without_wf(s, topic, report.failed.to_set());
    lemma_survivors_membership(before, report.failed.to_set());
    assert(before.len() > 0 ==> s.has_topic(topic) && before.no_duplicates());
    assert forall|i: int| 0 <= i < before.len() implies (after.subscribers(topic).contains(
        #[trigger] before[i],
    ) <==> taken[i]) by {
        assert(before.contains(before[i]));
        if taken[i] {
            if report.failed.contains(before[i]) {
                let k = choose|k: int| 0 <= k < before.len() && before[k] == before[i] && !taken[k];
                assert(k == i);
            }
        } else {
            assert(report.failed.contains(before[i]));
        }
    }
}

/// Where a topic has subscriptions and none of them takes the message, the
/// publish fails with `SendFailed`, and the topic is left without
/// subscriptions.
pub proof fn law_publish_fails_when_nobody_takes(
    s: BrokerState,
    topic: Seq<char>,
    taken: Seq<bool>,
)
    requires
        s.wf(),
        taken.len() == s.subscribers(topic).len(),
        taken.len() > 0,
        forall|i: int| 0 <= i < taken.len() ==> !taken[i],
    ensures
        s.publish(topic, taken).1 == Err::<(), BrokerError>(BrokerError::SendFailed),
        s.publish(topic, taken).0.subscribers(topic).len() == 0,
{
    let before = s.subscribers(topic);
    let report = tally(before, taken);
    let after = s.publish(topic, taken).0;
    lemma_tally_failed(before, taken);
    lemma_survivors_membership(before, report.failed.to_set());
    if after.subscribers(topic).len() > 0 {
        let x = after.subscribers(topic)[0];
        assert(after.subscribers(topic).contains(x));
        let i = choose|i: int| 0 <= i < before.len() && before[i] == x;
        assert(!taken[i]);
        assert(report.failed.contains(before[i]));
    }
}

/// When a connection closes, every subscription that it holds leaves the
/// registry, and no other does: a topic keeps, in their order, exactly the
/// subscriptions that the connection did not hold to it, and every topic
/// stays.
pub proof fn law_teardown_releases_holdings(s: BrokerState, held: Set<(Seq<char>, nat)>)
    requires
        s.wf(),
    ensures
        ({
            let after = s.without_all(held);
            &&& after.wf()
            &&& forall|name: Seq<char>| #[trigger] after.has_topic(name) == s.has_topic(name)
            &&& forall|name: Seq<char>, id: nat|
                #[trigger] after.subscribers(name).contains(id) <==> s.subscribers(name).contains(
                    id,
                ) && !held.contains((name, id))
        }),
{
    let after = s.without_all(held);
    assert forall|name: Seq<char>, id: nat|
        #[trigger] after.subscribers(name).contains(id) <==> s.subscribers(name).contains(id)
            && !held.contains((name, id)) by {
        if s.has_topic(name) {
            lemma_survivors_membership(s.topics[name], ids_under(held, name));
        }
    }
    assert forall|name: Seq<char>|
        after.topics.contains_key(name) implies (#[trigger] after.topics[name]).no_duplicates() by {
        lemma_survivors_distinct(s.topics[name], ids_under(held, name));
    }
    assert forall|name: Seq<char>, id: nat|
        after.topics.contains_key(name) && #[trigger] after.topics[name].contains(
            id,
        ) implies s.topics[name].contains(id) by {
        assert(after.subscribers(name).contains(id));
    }
}

/// Ending the subscriptions of a connection twice is ending them once.
pub proof fn law_teardown_is_idempotent(s: BrokerState, held: Set<(Seq<char>, nat)>)
    ensures
        s.without_all(held).without_all(held) == s.without_all(held),
        s.without_all(held).without_all(Set::empty()) == s.without_all(held),
{
    let once = s.without_all(held);
    assert forall|name: Seq<char>| s.topics.contains_key(name) implies #[trigger] once.without_all(
        held,
    ).topics[name] == once.topics[name] by {
        let gone = ids_under(held, name);
        lemma_survivors_twice(s.topics[name], gone, gone);
        assert(gone.union(gone) =~= gone);
    }
    assert(once.without_all(held).topics =~= once.topics);
    lemma_without_all_nothing(once);
}

/// The number of fields that a line with this verb has, the verb included;
/// `None` for a word that is no verb.
pub open spec fn arity(verb: Seq<char>) -> Option<nat> {
    if verb == "CREATE_TOPIC"@ || verb == "SUBSCRIBE"@ || verb == "UNSUBSCRIBE"@ {
        Some(2)
    } else if verb == "PUBLISH"@ {
        Some(4)
    } else {
        None
    }
}

/// A line is a command only if it has a verb and exactly the fields that
/// the verb takes: an empty line, an unknown verb, a missing field and a
/// surplus field all make it an invalid command.
pub proof fn law_wrong_fields_are_an_invalid_command(line: Seq<char>)
    requires
        fields(line).len() == 0 || arity(fields(line)[0]) != Some(fields(line).len()),
    ensures
        parsed(line) == Err::<CommandView, BrokerError>(BrokerError::InvalidCommand),
{
    lemma_verbs_differ();
}

/// A line with its verb and the right number of fields is refused in one
/// case only: it is a `PUBLISH` line whose payload field is not base64, and
/// the error is then `InvalidData`, not `InvalidCommand`.
pub proof fn law_bad_payload_is_invalid_data(line: Seq<char>)
    requires
        fields(line).len() > 0,
        arity(fields(line)[0]) == Some(fields(line).len()),
    ensures
        parsed(line) is Err <==> fields(line)[0] == "PUBLISH"@ && base64_decoded(fields(line)[3])
            is None,
        parsed(line) is Err ==> parsed(line) == Err::<CommandView, BrokerError>(
            BrokerError::InvalidData,
        ),
{
    lemma_verbs_differ();
}

/// A command that was read says what its line says: the verb is the one of
/// the command, the topic is the second field, and for a publish the key is
/// the third field (none for `-`) and the payload is what the fourth field
/// decodes to.
pub proof fn law_command_matches_line(line: Seq<char>)
    requires
        parsed(line) is Ok,
    ensures
        ({
            let parts = fields(line);
            match parsed(line)->Ok_0 {
                CommandView::CreateTopic(name) => parts == seq!["CREATE_TOPIC"@, name],
                CommandView::Subscribe(name) => parts == seq!["SUBSCRIBE"@, name],
                CommandView::Unsubscribe(name) => parts == seq!["UNSUBSCRIBE"@, name],
                CommandView::Publish(msg) => {
                    &&& parts.len() == 4
                    &&& parts[0] == "PUBLISH"@
                    &&& parts[1] == msg.topic
                    &&& key_of(parts[2]) == msg.key
                    &&& base64_decoded(parts[3]) == Some(msg.data)
                },
            }
        }),
{
    lemma_verbs_differ();
}

/// A line that ends in a character of a field has a field.
proof fn lemma_fields_nonempty(line: Seq<char>)
    requires
        line.len() > 0,
        !is_space(line.last()),
    ensures
        fields(line).len() > 0,
        fields(line).last().len() > 0,
        fields(line).last().last() == line.last(),
    decreases line.len(),
{
    let before = line.drop_last();
    if before.len() > 0 && !is_space(before.last()) {
        lemma_fields_nonempty(before);
    }
}

/// Fields are words: no field is empty, and no field holds white space.
pub proof fn law_fields_are_words(line: Seq<char>)
    ensures
        forall|k: int| 0 <= k < fields(line).len() ==> (#[trigger] fields(line)[k]).len() > 0,
        forall|k: int, j: int|
            0 <= k < fields(line).len() && 0 <= j < fields(line)[k].len() ==> !is_space(
                #[trigger] fields(line)[k][j],
            ),
    decreases line.len(),
{
    if line.len() > 0 {
        let before = line.drop_last();
        law_fields_are_words(before);
        if !is_space(line.last()) && before.len() > 0 && !is_space(before.last()) {
            lemma_fields_nonempty(before);
        }
    }
}

/// The topic that a command names is a word: it is not empty, and it holds
/// no white space.
pub proof fn law_topic_names_are_words(line: Seq<char>)
    requires
        parsed(line) is Ok,
    ensures
        ({
            let topic = match parsed(line)->Ok_0 {
                CommandView::CreateTopic(name) => name,
                CommandView::Subscribe(name) => name,
                CommandView::Unsubscribe(name) => name,
                CommandView::Publish(msg) => msg.topic,
            };
            &&& topic.len() > 0
            &&& forall|j: int| 0 <= j < topic.len() ==> !is_space(#[trigger] topic[j])
        }),
{
    law_command_matches_line(line);
    law_fields_are_words(line);
    assert(fields(line).len() >= 2);
    assert(fields(line)[1].len() > 0);
}

/// A word is its own only field.
pub proof fn law_word_is_one_field(word: Seq<char>)
    requires
        word.len() > 0,
        forall|j: int| 0 <= j < word.len() ==> !is_space(word[j]),
    ensures
        fields(word) == seq![word],
    decreases word.len(),
{
    let before = word.drop_last();
    if before.len() > 0 {
        law_word_is_one_field(before);
        assert(before.push(word.last()) =~= word);
    } else {
        assert(fields(before) =~= Seq::empty());
        assert(seq![word.last()] =~= word);
    }
}

/// White space parts fields and is no field: the fields of two texts with
/// white space between them are the fields of the first, then those of the
/// second.
pub proof fn law_space_parts_fields(left: Seq<char>, space: char, right: Seq<char>)
    requires
        is_space(space),
    ensures
        fields(left.push(space) + right) == fields(left) + fields(right),
    decreases right.len(),
{
    let whole = left.push(space) + right;
    if right.len() == 0 {
        assert(whole.drop_last() =~= left);
    } else {
        let less = right.drop_last();
        law_space_parts_fields(left, space, less);
        assert(whole.drop_last() =~= left.push(space) + less);
        if less.len() > 0 && !is_space(less.last()) {
            lemma_fields_nonempty(less);
        }
    }
}

} // verus!
