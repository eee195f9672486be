//! One connection's side of the broker: the subscriptions that the connection
//! holds, what each of its commands does to the registry, and what is written
//! back.
//!
//! The functions here take the registry by `&mut`. Reading lines, writing
//! replies and forwarding the messages that arrive at a subscription's queue
//! are the caller's part.

use crate::broker::{Broker, SubscriptionId};
use crate::codec::{encode_error, error_text};
use crate::command::{parse_command, parsed, same_text, BrokerCommand, CommandView};
use crate::error::BrokerError;
use crate::message::Message;
use crate::model::{
    ids_under, lemma_without_all_nothing, lemma_without_all_step, lemma_without_nothing,
    lemma_without_twice, BrokerState,
};
use tokio::sync::mpsc::Receiver;
use vstd::prelude::*;

verus! {

/// What came of one command.
#[derive(Debug)]
pub enum Reply {
    /// The command went through. Nothing is written.
    Done,
    /// A subscription was made. Nothing is written; the messages that arrive
    /// at the receiving end are to be forwarded to the connection.
    Subscribed(SubscriptionId, Receiver<Message>),
    /// The command failed. An error line is written.
    Failed(BrokerError),
}

impl Reply {
    /// Whether this is the reply to a command that ended with `res` and made
    /// no subscription.
    pub open spec fn answers(self, res: Result<(), BrokerError>) -> bool {
        match res {
            Ok(_) => self is Done,
            Err(e) => self == Reply::Failed(e),
        }
    }

    /// The line to write to the connection, if there is one.
    pub fn line(&self) -> (line: Option<String>)
        ensures
            match *self {
                Reply::Failed(e) => line matches Some(text) && text@ == error_text(e),
                _ => line is None,
            },
    {
        match self {
            Reply::Failed(e) => Some(encode_error(e)),
            _ => None,
        }
    }
}

/// The subscriptions that a connection holds: each a topic with an id.
pub type Holdings = Seq<(Seq<char>, nat)>;

/// The entries of `held` that name another topic than `topic`, in their
/// order.
pub open spec fn held_elsewhere(held: Holdings, topic: Seq<char>) -> Holdings
    decreases held.len(),
{
    if held.len() == 0 {
        held
    } else if held.last().0 == topic {
        held_elsewhere(held.drop_last(), topic)
    } else {
        held_elsewhere(held.drop_last(), topic).push(held.last())
    }
}

/// What a command does: the registry `b1` and the holdings `s1` that it
/// leaves, and the reply that it gets, from the registry `b0` and the
/// holdings `s0`.
pub open spec fn processed(
    cmd: CommandView,
    b0: BrokerState,
    s0: Holdings,
    b1: BrokerState,
    s1: Holdings,
    reply: Reply,
) -> bool {
    match cmd {
        CommandView::CreateTopic(name) => {
            &&& b1 == b0.create_topic(name).0
            &&& s1 == s0
            &&& reply.answers(b0.create_topic(name).1)
        },
        CommandView::Subscribe(name) => {
            &&& b1 == b0.subscribe(name).0
            &&& s1 == s0.push((name, b0.subscribe(name).1))
            &&& reply matches Reply::Subscribed(id, _) && id@ == b0.subscribe(name).1
        },
        CommandView::Unsubscribe(name) => if b0.has_topic(name) {
            &&& b1 == b0.without(name, ids_under(s0.to_set(), name))
            &&& s1 == held_elsewhere(s0, name)
            &&& reply is Done
        } else {
            &&& b1 == b0
            &&& s1 == s0
            &&& reply == Reply::Failed(BrokerError::TopicNotFound)
        },
        CommandView::Publish(msg) => {
            &&& s1 == s0
            &&& exists|taken: Seq<bool>|
                {
                    &&& taken.len() == b0.subscribers(msg.topic).len()
                    &&& b1 == (#[trigger] b0.publish(msg.topic, taken)).0
                    &&& reply.answers(b0.publish(msg.topic, taken).1)
                }
        },
    }
}

#[derive(Debug)]
struct Held {
    topic: String,
    id: SubscriptionId,
}

/// The state of one connection: the subscriptions that it has made and not
/// ended, oldest first.
#[derive(Debug)]
pub struct Session {
    held: Vec<Held>,
}

impl View for Session {
    type V = Holdings;

    closed spec fn view(&self) -> Holdings {
        Seq::new(self.held.len() as nat, |i: int| (self.held@[i].topic@, self.held@[i].id@))
    }
}

/// A sequence that is one longer holds what the shorter holds, and its last
/// item.
proof fn lemma_take_next<A>(all: Seq<A>, n: int)
    requires
        0 <= n < all.len(),
    ensures
        all.take(n + 1).to_set() == all.take(n).to_set().insert(all[n]),
{
    let longer = all.take(n + 1);
    let shorter = all.take(n);
    assert forall|x: A| longer.to_set().contains(x) <==> shorter.to_set().insert(all[n]).contains(
        x,
    ) by {
        if longer.contains(x) {
            let i = choose|i: int| 0 <= i < longer.len() && longer[i] == x;
            assert(i < n ==> shorter[i] == x);
        }
        if shorter.contains(x) {
            let i = choose|i: int| 0 <= i < shorter.len() && shorter[i] == x;
            assert(longer[i] == x);
        }
        if x == all[n] {
            assert(longer[n] == x);
        }
    }
}

impl Session {
    /// The state of a connection that has just been opened.
    pub fn new() -> (session: Session)
        ensures
            session@ == Holdings::empty(),
    {
        Session { held: Vec::new() }
    }

    /// The number of subscriptions that the connection holds.
    pub fn held_count(&self) -> (count: usize)
        ensures
            count == self@.len(),
    {
        self.held.len()
    }

    /// Ends the subscriptions that the connection holds to a topic that
    /// exists.
    fn release_topic(&mut self, broker: &mut Broker, topic: &str)
        requires
            old(broker).wf(),
            old(broker)@.has_topic(topic@),
        ensures
            final(broker).wf(),
            final(broker)@ == old(broker)@.without(topic@, ids_under(old(self)@.to_set(), topic@)),
            final(self)@ == held_elsewhere(old(self)@, topic@),
    {
        let ghost all = self@;
        let ghost b0 = broker@;
        let ghost mut seen: int = 0;
        let mut at: usize = 0;
        proof {
            assert(ids_under(all.take(0).to_set(), topic@) =~= Set::empty());
            lemma_without_nothing(b0, topic@);
        }
        while at < self.held.len()
            invariant
                0 <= seen <= all.len(),
                at <= self.held.len(),
                self.held.len() - at == all.len() - seen,
                at == held_elsewhere(all.take(seen), topic@).len(),
                self@ == held_elsewhere(all.take(seen), topic@) + all.skip(seen),
                broker.wf(),
                b0.has_topic(topic@),
                broker@ == b0.without(topic@, ids_under(all.take(seen).to_set(), topic@)),
            decreases all.len() - seen,
        {
            let ghost kept = held_elsewhere(all.take(seen), topic@);
            let ghost before = self@;
            let ghost struck = ids_under(all.take(seen).to_set(), topic@);
            proof {
                assert(before[at as int] == all.skip(seen)[0]);
                assert(all.take(seen + 1).drop_last() =~= all.take(seen));
                lemma_take_next(all, seen);
            }
            if same_text(self.held[at].topic.as_str(), topic) {
                let entry = self.held.remove(at);
                let _ = broker.unsubscribe(topic, entry.id);
                proof {
                    assert forall|k: int| 0 <= k < self@.len() implies self@[k] == (kept + all.skip(
                        seen + 1,
                    ))[k] by {
                        if k < at {
                            assert(before[k] == kept[k]);
                        } else {
                            assert(before[k + 1] == all.skip(seen)[k + 1 - at]);
                        }
                    }
                    lemma_without_twice(b0, topic@, struck, set![entry.id@]);
                    assert(struck.union(set![entry.id@]) =~= ids_under(
                        all.take(seen + 1).to_set(),
                        topic@,
                    ));
                }
            } else {
                at += 1;
                proof {
                    assert(struck =~= ids_under(all.take(seen + 1).to_set(), topic@));
                }
            }
            proof {
                seen = seen + 1;
            }
        }
    }

    /// Ends every subscription that the connection still holds, as is due
    /// when the connection closes. A subscription that the registry has
    /// dropped already is not missed, so that a second call changes nothing.
    pub fn teardown(&mut self, broker: &mut Broker)
        requires
            old(broker).wf(),
        ensures
            final(broker).wf(),
            final(broker)@ == old(broker)@.without_all(old(self)@.to_set()),
            final(self)@ == Holdings::empty(),
    {
        let ghost all = self@;
        let ghost b0 = broker@;
        let mut i: usize = 0;
        proof {
            assert(all.take(0).to_set() =~= Set::empty());
            lemma_without_all_nothing(b0);
        }
        while i < self.held.len()
            invariant
                i <= self.held.len(),
                self@ == all,
                broker.wf(),
                broker@ == b0.without_all(all.take(i as int).to_set()),
            decreases self.held.len() - i,
        {
            let entry = &self.held[i];
            let _ = broker.unsubscribe(entry.topic.as_str(), entry.id);
            proof {
                lemma_without_all_step(b0, all.take(i as int).to_set(), entry.topic@, entry.id@);
                lemma_take_next(all, i as int);
            }
            i += 1;
        }
        self.held.clear();
        proof {
            assert(all.take(i as int) =~= all);
        }
    }
}

/// Carries out one command of a connection on the registry, and says what to
/// write back: nothing where the command went through, an error line where it
/// failed. A subscription that the command made is noted in the session and
/// handed out with the reply.
///
/// `UNSUBSCRIBE` ends every subscription that the connection holds to the
/// topic; it fails only for a topic that does not exist.
pub fn process_command(cmd: BrokerCommand, broker: &mut Broker, session: &mut Session) -> (reply:
    Reply)
    requires
        old(broker).wf(),
        cmd is Subscribe ==> old(broker)@.issued < u64::MAX,
    ensures
        final(broker).wf(),
        processed(cmd@, old(broker)@, old(session)@, final(broker)@, final(session)@, reply),
{
    match cmd {
        BrokerCommand::CreateTopic(name) => {
            match broker.create_topic(name.as_str()) {
                Ok(_) => Reply::Done,
                Err(e) => Reply::Failed(e),
            }
        },
        BrokerCommand::Subscribe(name) => {
            let (id, inbox) = broker.subscribe(name.as_str());
            let ghost before = session@;
            session.held.push(Held { topic: name, id });
            assert(session@ =~= before.push((name@, id@)));
            Reply::Subscribed(id, inbox)
        },
        BrokerCommand::Unsubscribe(name) => {
            if !broker.has_topic(name.as_str()) {
                return Reply::Failed(BrokerError::TopicNotFound);
            }
            session.release_topic(broker, name.as_str());
            Reply::Done
        },
        BrokerCommand::Publish(msg) => {
            let ghost topic = msg@.topic;
            let res = broker.publish(msg);
            let reply = match res {
                Ok(_) => Reply::Done,
                Err(e) => Reply::Failed(e),
            };
            proof {
                let b0 = old(broker)@;
                let taken = choose|taken: Seq<bool>|
                    {
                        &&& taken.len() == b0.subscribers(topic).len()
                        &&& broker@ == (#[trigger] b0.publish(topic, taken)).0
                        &&& res == b0.publish(topic, taken).1
                    };
                assert(reply.answers(b0.publish(topic, taken).1));
            }
            reply
        },
    }
}

/// Handles one line that a connection sent: reads the command and carries it
/// out. A line that is no command is answered with its error and changes
/// nothing, so that the connection can go on.
pub fn handle_line(line: &str, broker: &mut Broker, session: &mut Session) -> (reply: Reply)
    requires
        old(broker).wf(),
        old(broker)@.issued < u64::MAX,
    ensures
        final(broker).wf(),
        match parsed(line@) {
            Ok(cmd) => processed(
                cmd,
                old(broker)@,
                old(session)@,
                final(broker)@,
                final(session)@,
                reply,
            ),
            Err(e) => {
                &&& reply == Reply::Failed(e)
                &&& final(broker)@ == old(broker)@
                &&& final(session)@ == old(session)@
            },
        },
{
    match parse_command(line) {
        Ok(cmd) => process_command(cmd, broker, session),
        Err(e) => Reply::Failed(e),
    }
}

} // verus!
