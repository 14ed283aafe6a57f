use criptomeria_marketdata::registry::{Subscriber, SubscriberRegistry};

fn all(id: &str) -> Subscriber {
    Subscriber::all(id)
}

fn topics(id: &str, topics: &[&str]) -> Subscriber {
    Subscriber::topics(id, topics.iter().map(|s| s.to_string()).collect())
}

#[test]
fn counts_subscribe_all_subscriber_for_every_known_topic() {
    let mut registry = SubscriberRegistry::new();
    registry.add(all("stdout_subscriber"));
    registry.record_topic("lob__btcusdt");
    registry.record_topic("trade__btcusdt");
    assert_eq!(registry.count_for_topic("lob__btcusdt"), 1);
    assert_eq!(registry.count_for_topic("trade__btcusdt"), 1);
}

#[test]
fn counts_specific_topic_subscribers() {
    let mut registry = SubscriberRegistry::new();
    registry.add(topics("a", &["lob__btcusdt"]));
    registry.add(topics("b", &["lob__btcusdt", "trade__btcusdt"]));
    registry.record_topic("lob__btcusdt");
    registry.record_topic("trade__btcusdt");
    assert_eq!(registry.count_for_topic("lob__btcusdt"), 2);
    assert_eq!(registry.count_for_topic("trade__btcusdt"), 1);
}

#[test]
fn sums_subscribe_all_and_specific_subscribers() {
    let mut registry = SubscriberRegistry::new();
    registry.add(all("stdout_subscriber"));
    registry.add(topics("a", &["lob__btcusdt"]));
    registry.record_topic("lob__btcusdt");
    assert_eq!(registry.count_for_topic("lob__btcusdt"), 2);
}

#[test]
fn removes_subscriber_and_decrements_count() {
    let mut registry = SubscriberRegistry::new();
    registry.add(all("stdout_subscriber"));
    registry.record_topic("lob__btcusdt");
    assert_eq!(registry.count_for_topic("lob__btcusdt"), 1);
    assert!(registry.remove("stdout_subscriber"));
    assert_eq!(registry.count_for_topic("lob__btcusdt"), 0);
    assert!(!registry.remove("nonexistent"));
}

#[test]
fn snapshot_returns_sorted_known_topics() {
    let mut registry = SubscriberRegistry::new();
    registry.add(all("stdout_subscriber"));
    registry.record_topic("trade__btcusdt");
    registry.record_topic("lob__btcusdt");
    assert_eq!(
        registry.snapshot_counts(),
        vec![
            ("lob__btcusdt".to_string(), 1),
            ("trade__btcusdt".to_string(), 1),
        ]
    );
}

#[test]
fn unknown_topic_counts_zero() {
    let registry = SubscriberRegistry::new();
    assert_eq!(registry.count_for_topic("nope__x"), 0);
}

#[test]
fn specific_topics_are_kept_once_and_become_known() {
    let s = topics("a", &["x", "y", "x"]);
    assert_eq!(s.topics.len(), 2);
    assert!(!s.all);
    let mut registry = SubscriberRegistry::new();
    registry.add(s);
    registry.record_topic("y");
    let snapshot = registry.snapshot_counts();
    assert_eq!(snapshot, vec![("x".to_string(), 1), ("y".to_string(), 1)]);
    assert_eq!(registry.subscriber_count(), 1);
}

#[test]
fn remove_drops_every_subscriber_with_the_id_and_keeps_the_others() {
    let mut registry = SubscriberRegistry::new();
    registry.add(topics("a", &["t"]));
    registry.add(all("b"));
    registry.add(topics("a", &["u"]));
    assert_eq!(registry.count_for_topic("t"), 2);
    assert!(registry.remove("a"));
    assert_eq!(registry.subscriber_count(), 1);
    assert_eq!(registry.count_for_topic("t"), 1);
    assert_eq!(registry.count_for_topic("u"), 1);
    assert_eq!(
        registry.snapshot_counts(),
        vec![("t".to_string(), 1), ("u".to_string(), 1)]
    );
}

#[test]
fn snapshot_orders_by_text_and_counts_subscribe_all() {
    let mut registry = SubscriberRegistry::new();
    registry.add(topics("a", &["b", "a"]));
    registry.record_topic("ab");
    registry.record_topic("B");
    registry.record_topic("a");
    assert_eq!(
        registry.snapshot_counts(),
        vec![
            ("B".to_string(), 0),
            ("a".to_string(), 1),
            ("ab".to_string(), 0),
            ("b".to_string(), 1),
        ]
    );
    assert!(SubscriberRegistry::new().snapshot_counts().is_empty());
}

#[test]
fn removing_a_new_subscriber_restores_the_counts() {
    let mut registry = SubscriberRegistry::new();
    registry.add(topics("a", &["t"]));
    registry.add(all("b"));
    let before = registry.count_for_topic("t");
    registry.add(topics("c", &["t", "u"]));
    assert_eq!(registry.count_for_topic("t"), before + 1);
    assert!(registry.remove("c"));
    assert_eq!(registry.count_for_topic("t"), before);
    assert_eq!(registry.subscriber_count(), 2);
}
