use pubsub_broker::broker::{deliver, Broker, Delivery, DEFAULT_QUEUE_CAPACITY};
use pubsub_broker::error::BrokerError;
use pubsub_broker::message::Message;
use tokio::sync::mpsc::error::TryRecvError;
use tokio::sync::mpsc::Receiver;

fn message(topic: &str, data: &[u8]) -> Message {
    Message { topic: topic.to_string(), key: None, data: data.to_vec() }
}

fn drain(inbox: &mut Receiver<Message>) -> Vec<Vec<u8>> {
    let mut got = Vec::new();
    while let Ok(msg) = inbox.try_recv() {
        got.push(msg.data);
    }
    got
}

fn ids(broker: &Broker, topic: &str) -> Vec<pubsub_broker::broker::SubscriptionId> {
    broker.snapshot(topic).iter().map(|s| s.id()).collect()
}

#[test]
fn a_new_broker_has_no_topics() {
    let broker = Broker::new();
    assert!(!broker.has_topic("orders"));
    assert!(broker.snapshot("orders").is_empty());
    assert!(broker.can_subscribe());
}

#[test]
fn create_topic_makes_an_empty_topic() {
    let mut broker = Broker::new();
    assert!(broker.create_topic("orders").is_ok());
    assert!(broker.has_topic("orders"));
    assert!(!broker.has_topic("Orders"));
    assert!(broker.snapshot("orders").is_empty());
}

#[test]
fn creating_a_topic_twice_is_refused() {
    let mut broker = Broker::new();
    assert!(broker.create_topic("orders").is_ok());
    let (id, mut inbox) = broker.subscribe("orders");
    assert!(matches!(broker.create_topic("orders"), Err(BrokerError::TopicExists)));
    assert_eq!(ids(&broker, "orders"), vec![id]);
    assert!(broker.publish(message("orders", b"still here")).is_ok());
    assert_eq!(drain(&mut inbox), vec![b"still here".to_vec()]);
}

#[test]
fn publish_to_a_created_topic_without_subscribers_succeeds() {
    let mut broker = Broker::new();
    broker.create_topic("orders").unwrap();
    assert!(broker.publish(message("orders", b"nobody")).is_ok());
}

#[test]
fn subscribe_creates_the_topic() {
    let mut broker = Broker::new();
    let (id, _inbox) = broker.subscribe("orders");
    assert!(broker.has_topic("orders"));
    assert_eq!(ids(&broker, "orders"), vec![id]);
    assert!(matches!(broker.create_topic("orders"), Err(BrokerError::TopicExists)));
}

#[test]
fn subscription_ids_are_never_repeated() {
    let mut broker = Broker::new();
    let (a, _ia) = broker.subscribe("x");
    let (b, _ib) = broker.subscribe("x");
    let (c, _ic) = broker.subscribe("y");
    assert_ne!(a, b);
    assert_ne!(a, c);
    assert_ne!(b, c);
    broker.unsubscribe("x", a).unwrap();
    let (d, _id) = broker.subscribe("x");
    assert_ne!(d, a);
    assert_ne!(d, b);
    assert_ne!(d, c);
}

#[test]
fn every_subscription_gets_one_copy_in_publish_order() {
    let mut broker = Broker::new();
    let mut inboxes = Vec::new();
    for _ in 0..5 {
        inboxes.push(broker.subscribe("orders").1);
    }
    let first: Vec<u8> = (0..=255u8).collect();
    let second = b"second".to_vec();
    assert!(broker.publish(message("orders", &first)).is_ok());
    assert!(broker.publish(message("orders", &second)).is_ok());
    for inbox in inboxes.iter_mut() {
        assert_eq!(drain(inbox), vec![first.clone(), second.clone()]);
    }
    assert_eq!(broker.snapshot("orders").len(), 5);
}

#[test]
fn a_message_goes_to_its_own_topic_only() {
    let mut broker = Broker::new();
    let (_a, mut orders) = broker.subscribe("orders");
    let (_b, mut bills) = broker.subscribe("bills");
    broker.publish(message("orders", b"o")).unwrap();
    assert_eq!(drain(&mut orders), vec![b"o".to_vec()]);
    assert!(drain(&mut bills).is_empty());
}

#[test]
fn a_delivered_message_keeps_topic_and_key() {
    let mut broker = Broker::new();
    let (_id, mut inbox) = broker.subscribe("orders");
    let msg = Message { topic: "orders".to_string(), key: Some("k".to_string()), data: vec![1] };
    broker.publish(msg).unwrap();
    let got = inbox.try_recv().unwrap();
    assert_eq!(got.topic, "orders");
    assert_eq!(got.key, Some("k".to_string()));
    assert_eq!(got.data, vec![1]);
}

#[test]
fn unsubscribe_removes_only_the_target() {
    let mut broker = Broker::new();
    let (a, mut inbox_a) = broker.subscribe("orders");
    let (b, mut inbox_b) = broker.subscribe("orders");
    let (c, mut inbox_c) = broker.subscribe("orders");
    assert!(broker.unsubscribe("orders", b).is_ok());
    assert_eq!(ids(&broker, "orders"), vec![a, c]);
    assert!(broker.publish(message("orders", b"after")).is_ok());
    assert_eq!(drain(&mut inbox_a), vec![b"after".to_vec()]);
    assert!(drain(&mut inbox_b).is_empty());
    assert_eq!(drain(&mut inbox_c), vec![b"after".to_vec()]);
}

#[test]
fn unsubscribe_closes_the_queue_of_the_subscription() {
    let mut broker = Broker::new();
    let (id, mut inbox) = broker.subscribe("orders");
    broker.publish(message("orders", b"one")).unwrap();
    broker.unsubscribe("orders", id).unwrap();
    assert_eq!(inbox.try_recv().unwrap().data, b"one".to_vec());
    assert!(matches!(inbox.try_recv(), Err(TryRecvError::Disconnected)));
}

#[test]
fn unsubscribe_from_an_unknown_topic_fails() {
    let mut broker = Broker::new();
    let (id, _inbox) = broker.subscribe("orders");
    assert!(matches!(broker.unsubscribe("bills", id), Err(BrokerError::TopicNotFound)));
    assert_eq!(ids(&broker, "orders"), vec![id]);
    assert!(!broker.has_topic("bills"));
}

#[test]
fn unsubscribing_an_id_that_is_gone_changes_nothing() {
    let mut broker = Broker::new();
    let (a, _ia) = broker.subscribe("orders");
    let (b, _ib) = broker.subscribe("orders");
    let (c, _ic) = broker.subscribe("bills");
    assert!(broker.unsubscribe("orders", a).is_ok());
    assert!(broker.unsubscribe("orders", a).is_ok());
    assert!(broker.unsubscribe("orders", c).is_ok());
    assert_eq!(ids(&broker, "orders"), vec![b]);
    assert_eq!(ids(&broker, "bills"), vec![c]);
}

#[test]
fn a_topic_outlives_its_subscriptions() {
    let mut broker = Broker::new();
    let (a, _ia) = broker.subscribe("orders");
    broker.unsubscribe("orders", a).unwrap();
    assert!(broker.has_topic("orders"));
    assert!(broker.unsubscribe("orders", a).is_ok());
    assert!(broker.publish(message("orders", b"x")).is_ok());
}

#[test]
fn publish_to_an_unknown_topic_succeeds() {
    let mut broker = Broker::new();
    let (_id, mut inbox) = broker.subscribe("orders");
    assert!(broker.publish(message("bills", b"lost")).is_ok());
    assert!(!broker.has_topic("bills"));
    assert!(drain(&mut inbox).is_empty());
}

#[test]
fn a_dead_subscription_is_dropped_silently() {
    let mut broker = Broker::new();
    let (a, mut inbox_a) = broker.subscribe("orders");
    let (_b, inbox_b) = broker.subscribe("orders");
    let (c, mut inbox_c) = broker.subscribe("orders");
    drop(inbox_b);
    assert!(broker.publish(message("orders", b"one")).is_ok());
    assert_eq!(ids(&broker, "orders"), vec![a, c]);
    assert!(broker.publish(message("orders", b"two")).is_ok());
    assert_eq!(drain(&mut inbox_a), vec![b"one".to_vec(), b"two".to_vec()]);
    assert_eq!(drain(&mut inbox_c), vec![b"one".to_vec(), b"two".to_vec()]);
}

#[test]
fn publish_fails_when_no_subscription_takes_the_message() {
    let mut broker = Broker::new();
    let (_a, inbox_a) = broker.subscribe("orders");
    let (_b, inbox_b) = broker.subscribe("orders");
    drop(inbox_a);
    drop(inbox_b);
    assert!(matches!(broker.publish(message("orders", b"x")), Err(BrokerError::SendFailed)));
    assert!(broker.snapshot("orders").is_empty());
    assert!(broker.has_topic("orders"));
    assert!(broker.publish(message("orders", b"y")).is_ok());
}

#[test]
fn a_full_queue_ends_the_subscription() {
    let mut broker = Broker::with_queue_capacity(2).unwrap();
    let (slow, mut slow_inbox) = broker.subscribe("orders");
    let (quick, mut quick_inbox) = broker.subscribe("orders");
    broker.publish(message("orders", b"1")).unwrap();
    assert_eq!(drain(&mut quick_inbox), vec![b"1".to_vec()]);
    broker.publish(message("orders", b"2")).unwrap();
    assert_eq!(drain(&mut quick_inbox), vec![b"2".to_vec()]);
    assert_eq!(ids(&broker, "orders"), vec![slow, quick]);
    assert!(broker.publish(message("orders", b"3")).is_ok());
    assert_eq!(ids(&broker, "orders"), vec![quick]);
    assert_eq!(drain(&mut quick_inbox), vec![b"3".to_vec()]);
    assert_eq!(slow_inbox.try_recv().unwrap().data, b"1".to_vec());
    assert_eq!(slow_inbox.try_recv().unwrap().data, b"2".to_vec());
    assert!(matches!(slow_inbox.try_recv(), Err(TryRecvError::Disconnected)));
}

#[test]
fn a_full_queue_of_the_only_subscription_fails_the_publish() {
    let mut broker = Broker::with_queue_capacity(1).unwrap();
    let (_id, _inbox) = broker.subscribe("orders");
    assert!(broker.publish(message("orders", b"1")).is_ok());
    assert!(matches!(broker.publish(message("orders", b"2")), Err(BrokerError::SendFailed)));
    assert!(broker.snapshot("orders").is_empty());
}

#[test]
fn queue_capacity_must_be_possible() {
    assert!(Broker::with_queue_capacity(0).is_none());
    assert!(Broker::with_queue_capacity(1).is_some());
    assert!(Broker::with_queue_capacity(DEFAULT_QUEUE_CAPACITY).is_some());
    assert!(Broker::with_queue_capacity(usize::MAX / 8).is_some());
    assert!(Broker::with_queue_capacity(usize::MAX / 8 + 1).is_none());
    assert!(Broker::with_queue_capacity(usize::MAX).is_none());
}

#[test]
fn the_default_queue_holds_the_default_capacity() {
    let mut broker = Broker::new();
    let (_id, _inbox) = broker.subscribe("orders");
    for _ in 0..DEFAULT_QUEUE_CAPACITY {
        assert!(broker.publish(message("orders", b"m")).is_ok());
    }
    assert!(matches!(broker.publish(message("orders", b"m")), Err(BrokerError::SendFailed)));
}

#[test]
fn snapshot_lists_subscribers_oldest_first() {
    let mut broker = Broker::new();
    let (a, _ia) = broker.subscribe("orders");
    let (b, _ib) = broker.subscribe("bills");
    let (c, _ic) = broker.subscribe("orders");
    assert_eq!(ids(&broker, "orders"), vec![a, c]);
    assert_eq!(ids(&broker, "bills"), vec![b]);
    assert!(ids(&broker, "other").is_empty());
}

#[test]
fn publishing_in_three_steps() {
    let mut broker = Broker::new();
    let (a, mut inbox_a) = broker.subscribe("orders");
    let (b, inbox_b) = broker.subscribe("orders");
    let msg = message("orders", b"payload");

    let targets = broker.snapshot("orders");
    let (late, mut late_inbox) = broker.subscribe("orders");
    drop(inbox_b);
    let report = deliver(&targets, &msg);
    assert_eq!(report.attempted(), 2);
    assert_eq!(report.failed(), &vec![b]);
    assert!(report.verdict().is_ok());
    assert!(broker.settle("orders", &report).is_ok());

    assert_eq!(ids(&broker, "orders"), vec![a, late]);
    assert_eq!(drain(&mut inbox_a), vec![b"payload".to_vec()]);
    assert!(drain(&mut late_inbox).is_empty());
}

#[test]
fn settling_after_the_subscription_has_left() {
    let mut broker = Broker::new();
    let (a, inbox_a) = broker.subscribe("orders");
    let targets = broker.snapshot("orders");
    broker.unsubscribe("orders", a).unwrap();
    drop(inbox_a);
    let report = deliver(&targets, &message("orders", b"x"));
    assert_eq!(report.failed(), &vec![a]);
    assert!(matches!(broker.settle("orders", &report), Err(BrokerError::SendFailed)));
    assert!(broker.snapshot("orders").is_empty());
}

#[test]
fn delivering_to_nobody() {
    let report = deliver(&Vec::new(), &message("orders", b"x"));
    assert_eq!(report.attempted(), 0);
    assert!(report.failed().is_empty());
    assert!(report.verdict().is_ok());
}

#[test]
fn a_delivery_fails_only_if_nobody_took_the_message() {
    let mut broker = Broker::new();
    let (a, _ia) = broker.subscribe("t");
    let (b, _ib) = broker.subscribe("t");

    let mut report = Delivery::new();
    assert!(report.verdict().is_ok());
    report.record(a, false);
    assert!(matches!(report.verdict(), Err(BrokerError::SendFailed)));
    report.record(b, true);
    assert!(report.verdict().is_ok());
    assert_eq!(report.attempted(), 2);
    assert_eq!(report.failed(), &vec![a]);

    let mut all_failed = Delivery::new();
    all_failed.record(a, false);
    all_failed.record(b, false);
    assert!(matches!(all_failed.verdict(), Err(BrokerError::SendFailed)));
    assert_eq!(all_failed.failed(), &vec![a, b]);

    let mut all_taken = Delivery::new();
    all_taken.record(a, true);
    all_taken.record(b, true);
    assert!(all_taken.verdict().is_ok());
    assert!(all_taken.failed().is_empty());
}
