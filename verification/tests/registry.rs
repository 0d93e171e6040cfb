use message_broker::errors::BrokerError;
use message_broker::topic_state::Topic;

#[test]
fn a_new_registry_knows_no_topic() {
    let registry = Topic::new();
    assert!(!registry.has_topic("orders"));
    assert_eq!(registry.partition_count("orders"), None);
    assert!(registry.consumers("orders").is_none());
}

#[test]
fn a_topic_is_created_with_the_partitions_asked_for() {
    let mut registry = Topic::new();
    assert_eq!(registry.add_topic("orders".to_string(), 4), Some(4));
    assert!(registry.has_topic("orders"));
    assert_eq!(registry.partition_count("orders"), Some(4));
    for partition in 0..4 {
        assert_eq!(registry.total_messages("orders", partition), Some(0));
        assert_eq!(registry.cached_messages("orders", partition), Some(0));
    }
    assert_eq!(registry.total_messages("orders", 4), None);
    assert_eq!(registry.total_messages("orders", -1), None);
    assert_eq!(registry.consumers("orders").map(|group| group.len()), Some(0));
}

#[test]
fn zero_partitions_count_as_one() {
    let mut registry = Topic::new();
    assert_eq!(registry.add_topic("zero".to_string(), 0), Some(1));
    assert_eq!(registry.partition_count("zero"), Some(1));
    assert_eq!(registry.total_messages("zero", 0), Some(0));
    assert_eq!(registry.total_messages("zero", 1), None);
}

#[test]
fn negative_partitions_count_as_one() {
    let mut registry = Topic::new();
    assert_eq!(registry.add_topic("minus".to_string(), -7), Some(1));
    assert_eq!(registry.partition_count("minus"), Some(1));
    assert_eq!(registry.add_topic("lowest".to_string(), i32::MIN), Some(1));
    assert_eq!(registry.partition_count("lowest"), Some(1));
    let published = registry.send_message(None, b"x".to_vec(), "minus".to_string()).unwrap();
    assert_eq!(published.partition, 0);
}

#[test]
fn creating_a_topic_twice_keeps_its_partitions_and_counters() {
    let mut registry = Topic::new();
    assert_eq!(registry.add_topic("orders".to_string(), 3), Some(3));
    for i in 0..5u8 {
        registry.send_message(None, vec![i], "orders".to_string()).unwrap();
    }
    assert_eq!(registry.add_topic("orders".to_string(), 8), None);
    assert_eq!(registry.partition_count("orders"), Some(3));
    assert_eq!(registry.total_messages("orders", 0), Some(2));
    assert_eq!(registry.total_messages("orders", 1), Some(2));
    assert_eq!(registry.total_messages("orders", 2), Some(1));
    assert_eq!(registry.total_messages("orders", 3), None);
    // the cursor stays too: the sixth message goes to the partition after the fifth
    let published = registry.send_message(None, vec![9], "orders".to_string()).unwrap();
    assert_eq!(published.partition, 2);
}

#[test]
fn deleting_a_topic_forgets_its_messages_and_its_group() {
    let mut registry = Topic::new();
    registry.add_topic("orders".to_string(), 2);
    registry.add_topic("bills".to_string(), 1);
    registry.send_message(None, b"m".to_vec(), "orders".to_string()).unwrap();
    registry.add_consumer("reader", "orders").unwrap();
    assert!(registry.delete_topic("orders"));
    assert!(!registry.has_topic("orders"));
    assert!(registry.has_topic("bills"));
    assert_eq!(registry.total_messages("orders", 0), None);
    assert!(registry.consumers("orders").is_none());
    assert!(!registry.delete_topic("orders"));
    // a topic created again under the name starts from nothing
    assert_eq!(registry.add_topic("orders".to_string(), 2), Some(2));
    assert_eq!(registry.total_messages("orders", 0), Some(0));
    assert_eq!(registry.consumers("orders").map(|group| group.len()), Some(0));
}

#[test]
fn deleting_an_unknown_topic_changes_nothing() {
    let mut registry = Topic::new();
    registry.add_topic("orders".to_string(), 2);
    assert!(!registry.delete_topic("bills"));
    assert_eq!(registry.partition_count("orders"), Some(2));
}

#[test]
fn publishing_to_an_unknown_topic_is_refused() {
    let mut registry = Topic::new();
    registry.add_topic("orders".to_string(), 2);
    let refused = registry.send_message(None, b"m".to_vec(), "bills".to_string());
    assert_eq!(refused.err(), Some(BrokerError::NotFound));
    let refused = registry.send_message(Some("k".to_string()), b"m".to_vec(), "".to_string());
    assert_eq!(refused.err(), Some(BrokerError::NotFound));
    assert_eq!(registry.total_messages("orders", 0), Some(0));
}

#[test]
fn topic_names_are_told_apart_by_every_character() {
    let mut registry = Topic::new();
    registry.add_topic("orders".to_string(), 1);
    registry.add_topic("order".to_string(), 2);
    registry.add_topic("Orders".to_string(), 3);
    registry.add_topic("ordérs".to_string(), 4);
    registry.add_topic("".to_string(), 5);
    assert_eq!(registry.partition_count("orders"), Some(1));
    assert_eq!(registry.partition_count("order"), Some(2));
    assert_eq!(registry.partition_count("Orders"), Some(3));
    assert_eq!(registry.partition_count("ordérs"), Some(4));
    assert_eq!(registry.partition_count(""), Some(5));
    assert_eq!(registry.partition_count("orderz"), None);
}
