use message_broker::errors::BrokerError;
use message_broker::topic_state::{ConsumerState, Topic};

fn group_of(registry: &Topic, topic: &str) -> Vec<(String, Vec<i32>)> {
    registry
        .consumers(topic)
        .expect("the topic exists")
        .iter()
        .map(|member: &ConsumerState| {
            (member.consumer_id.clone(), member.assigned_partitions.clone())
        })
        .collect()
}

fn all_assigned(registry: &Topic, topic: &str) -> Vec<i32> {
    let mut all: Vec<i32> =
        group_of(registry, topic).into_iter().flat_map(|(_, assigned)| assigned).collect();
    all.sort();
    all
}

#[test]
fn the_first_consumer_gets_every_partition() {
    let mut registry = Topic::new();
    registry.add_topic("orders".to_string(), 4);
    assert_eq!(registry.add_consumer("a", "orders"), Ok(()));
    assert_eq!(group_of(&registry, "orders"), vec![("a".to_string(), vec![0, 1, 2, 3])]);
    let group = registry.consumers("orders").unwrap();
    assert_eq!(group[0].last_accessed_partition_index, -1);
}

#[test]
fn a_later_consumer_takes_the_last_partition_of_the_first() {
    let mut registry = Topic::new();
    registry.add_topic("orders".to_string(), 4);
    registry.add_consumer("a", "orders").unwrap();
    registry.add_consumer("b", "orders").unwrap();
    assert_eq!(
        group_of(&registry, "orders"),
        vec![("a".to_string(), vec![0, 1, 2]), ("b".to_string(), vec![3])]
    );
    registry.add_consumer("c", "orders").unwrap();
    registry.add_consumer("d", "orders").unwrap();
    assert_eq!(
        group_of(&registry, "orders"),
        vec![
            ("a".to_string(), vec![0]),
            ("b".to_string(), vec![3]),
            ("c".to_string(), vec![2]),
            ("d".to_string(), vec![1]),
        ]
    );
    assert_eq!(registry.consumers("orders").unwrap()[3].last_accessed_partition_index, -1);
}

#[test]
fn a_group_as_large_as_the_topic_is_full() {
    let mut registry = Topic::new();
    registry.add_topic("orders".to_string(), 2);
    assert_eq!(registry.add_consumer("a", "orders"), Ok(()));
    assert_eq!(registry.add_consumer("b", "orders"), Ok(()));
    assert_eq!(registry.add_consumer("c", "orders"), Err(BrokerError::GroupFull));
    assert_eq!(
        group_of(&registry, "orders"),
        vec![("a".to_string(), vec![0]), ("b".to_string(), vec![1])]
    );
    let mut single = Topic::new();
    single.add_topic("one".to_string(), 1);
    assert_eq!(single.add_consumer("a", "one"), Ok(()));
    assert_eq!(single.add_consumer("b", "one"), Err(BrokerError::GroupFull));
}

#[test]
fn joining_an_unknown_topic_is_refused() {
    let mut registry = Topic::new();
    registry.add_topic("orders".to_string(), 2);
    assert_eq!(registry.add_consumer("a", "bills"), Err(BrokerError::NotFound));
    assert_eq!(group_of(&registry, "orders"), vec![]);
}

#[test]
fn three_join_four_partitions_and_the_first_leaves() {
    let mut registry = Topic::new();
    registry.add_topic("orders".to_string(), 4);
    registry.add_consumer("a", "orders").unwrap();
    registry.add_consumer("b", "orders").unwrap();
    registry.add_consumer("c", "orders").unwrap();
    assert_eq!(
        group_of(&registry, "orders"),
        vec![
            ("a".to_string(), vec![0, 1]),
            ("b".to_string(), vec![3]),
            ("c".to_string(), vec![2]),
        ]
    );
    assert_eq!(registry.leave_consumer("a", "orders"), Ok(()));
    // the leaver is gone, and the first that remains has taken over its partitions
    assert_eq!(
        group_of(&registry, "orders"),
        vec![("b".to_string(), vec![3, 0, 1]), ("c".to_string(), vec![2])]
    );
    assert_eq!(all_assigned(&registry, "orders"), vec![0, 1, 2, 3]);
}

#[test]
fn a_later_member_leaves_its_partition_to_the_first() {
    let mut registry = Topic::new();
    registry.add_topic("orders".to_string(), 4);
    for id in ["a", "b", "c"] {
        registry.add_consumer(id, "orders").unwrap();
    }
    assert_eq!(registry.leave_consumer("b", "orders"), Ok(()));
    assert_eq!(
        group_of(&registry, "orders"),
        vec![("a".to_string(), vec![0, 1, 3]), ("c".to_string(), vec![2])]
    );
    assert_eq!(registry.leave_consumer("c", "orders"), Ok(()));
    assert_eq!(group_of(&registry, "orders"), vec![("a".to_string(), vec![0, 1, 3, 2])]);
    assert_eq!(all_assigned(&registry, "orders"), vec![0, 1, 2, 3]);
}

#[test]
fn the_last_member_leaves_an_empty_group() {
    let mut registry = Topic::new();
    registry.add_topic("orders".to_string(), 3);
    registry.add_consumer("a", "orders").unwrap();
    assert_eq!(registry.leave_consumer("a", "orders"), Ok(()));
    assert_eq!(group_of(&registry, "orders"), vec![]);
    // the next one starts over with every partition
    registry.add_consumer("b", "orders").unwrap();
    assert_eq!(group_of(&registry, "orders"), vec![("b".to_string(), vec![0, 1, 2])]);
}

#[test]
fn leaving_without_being_a_member_is_refused() {
    let mut registry = Topic::new();
    registry.add_topic("orders".to_string(), 3);
    assert_eq!(registry.leave_consumer("a", "orders"), Err(BrokerError::NotFound));
    assert_eq!(registry.leave_consumer("a", "bills"), Err(BrokerError::NotFound));
    registry.add_consumer("a", "orders").unwrap();
    assert_eq!(registry.leave_consumer("b", "orders"), Err(BrokerError::NotFound));
    registry.add_consumer("c", "orders").unwrap();
    assert_eq!(registry.leave_consumer("b", "orders"), Err(BrokerError::NotFound));
    assert_eq!(
        group_of(&registry, "orders"),
        vec![("a".to_string(), vec![0, 1]), ("c".to_string(), vec![2])]
    );
}

#[test]
fn every_partition_keeps_exactly_one_reader_through_joins_and_leaves() {
    let mut registry = Topic::new();
    registry.add_topic("orders".to_string(), 6);
    let script: [(&str, bool); 14] = [
        ("a", true),
        ("b", true),
        ("c", true),
        ("a", false),
        ("d", true),
        ("e", true),
        ("c", false),
        ("f", true),
        ("g", true),
        ("h", true),
        ("b", false),
        ("h", false),
        ("d", false),
        ("i", true),
    ];
    for (id, joins) in script {
        if joins {
            registry.add_consumer(id, "orders").unwrap();
        } else {
            registry.leave_consumer(id, "orders").unwrap();
        }
        assert_eq!(all_assigned(&registry, "orders"), vec![0, 1, 2, 3, 4, 5]);
        let group = group_of(&registry, "orders");
        assert!(group.len() <= 6);
        for (_, assigned) in group.iter().skip(1) {
            assert_eq!(assigned.len(), 1);
        }
    }
    // nine joined and five left
    assert_eq!(group_of(&registry, "orders").len(), 4);
}

#[test]
fn a_disconnect_hands_the_partitions_to_a_member_that_remains() {
    let mut registry = Topic::new();
    registry.add_topic("orders".to_string(), 4);
    for id in ["a", "b", "c"] {
        registry.add_consumer(id, "orders").unwrap();
    }
    registry.disconnect_user("a");
    assert_eq!(
        group_of(&registry, "orders"),
        vec![("b".to_string(), vec![3, 0, 1]), ("c".to_string(), vec![2])]
    );
    registry.disconnect_user("c");
    assert_eq!(group_of(&registry, "orders"), vec![("b".to_string(), vec![3, 0, 1, 2])]);
}

#[test]
fn a_disconnect_of_the_last_member_empties_the_group() {
    let mut registry = Topic::new();
    registry.add_topic("orders".to_string(), 4);
    registry.add_consumer("a", "orders").unwrap();
    registry.disconnect_user("a");
    assert_eq!(group_of(&registry, "orders"), vec![]);
}

#[test]
fn a_disconnect_of_a_stranger_changes_nothing() {
    let mut registry = Topic::new();
    registry.add_topic("orders".to_string(), 4);
    registry.add_topic("bills".to_string(), 2);
    registry.add_consumer("a", "orders").unwrap();
    registry.add_consumer("b", "bills").unwrap();
    registry.disconnect_user("c");
    assert_eq!(group_of(&registry, "orders"), vec![("a".to_string(), vec![0, 1, 2, 3])]);
    assert_eq!(group_of(&registry, "bills"), vec![("b".to_string(), vec![0, 1])]);
}

#[test]
fn a_disconnect_finds_the_topic_by_the_member() {
    let mut registry = Topic::new();
    registry.add_topic("orders".to_string(), 2);
    registry.add_topic("".to_string(), 2);
    registry.add_topic("bills".to_string(), 2);
    registry.add_consumer("a", "orders").unwrap();
    registry.add_consumer("b", "").unwrap();
    registry.add_consumer("c", "bills").unwrap();
    registry.add_consumer("d", "bills").unwrap();
    registry.disconnect_user("c");
    assert_eq!(group_of(&registry, "orders"), vec![("a".to_string(), vec![0, 1])]);
    assert_eq!(group_of(&registry, "bills"), vec![("d".to_string(), vec![1, 0])]);
    registry.disconnect_user("b");
    assert_eq!(group_of(&registry, ""), vec![]);
}

#[test]
fn a_disconnect_takes_the_member_out_of_every_topic() {
    let mut registry = Topic::new();
    registry.add_topic("orders".to_string(), 2);
    registry.add_topic("bills".to_string(), 3);
    registry.add_topic("notes".to_string(), 2);
    registry.add_consumer("a", "bills").unwrap();
    registry.add_consumer("b", "bills").unwrap();
    registry.add_consumer("a", "orders").unwrap();
    registry.add_consumer("c", "notes").unwrap();
    registry.disconnect_user("a");
    // in both topics the partitions went to the first member that remains
    assert_eq!(group_of(&registry, "orders"), vec![]);
    assert_eq!(group_of(&registry, "bills"), vec![("b".to_string(), vec![2, 0, 1])]);
    assert_eq!(group_of(&registry, "notes"), vec![("c".to_string(), vec![0, 1])]);
    for topic in ["orders", "bills", "notes"] {
        assert!(group_of(&registry, topic).iter().all(|(id, _)| id != "a"));
    }
    registry.disconnect_user("a");
    assert_eq!(group_of(&registry, "bills"), vec![("b".to_string(), vec![2, 0, 1])]);
}

#[test]
fn a_disconnect_takes_out_a_member_that_joined_twice() {
    let mut registry = Topic::new();
    registry.add_topic("orders".to_string(), 4);
    registry.add_consumer("a", "orders").unwrap();
    registry.add_consumer("b", "orders").unwrap();
    registry.add_consumer("a", "orders").unwrap();
    registry.add_consumer("c", "orders").unwrap();
    assert_eq!(
        group_of(&registry, "orders"),
        vec![
            ("a".to_string(), vec![0]),
            ("b".to_string(), vec![3]),
            ("a".to_string(), vec![2]),
            ("c".to_string(), vec![1]),
        ]
    );
    registry.disconnect_user("a");
    assert_eq!(
        group_of(&registry, "orders"),
        vec![("b".to_string(), vec![3, 0, 2]), ("c".to_string(), vec![1])]
    );
    assert_eq!(all_assigned(&registry, "orders"), vec![0, 1, 2, 3]);
}

#[test]
fn a_member_that_joined_twice_leaves_once_at_a_time() {
    let mut registry = Topic::new();
    registry.add_topic("orders".to_string(), 3);
    registry.add_consumer("a", "orders").unwrap();
    registry.add_consumer("b", "orders").unwrap();
    registry.add_consumer("b", "orders").unwrap();
    assert_eq!(
        group_of(&registry, "orders"),
        vec![
            ("a".to_string(), vec![0]),
            ("b".to_string(), vec![2]),
            ("b".to_string(), vec![1]),
        ]
    );
    registry.leave_consumer("b", "orders").unwrap();
    assert_eq!(
        group_of(&registry, "orders"),
        vec![("a".to_string(), vec![0, 2]), ("b".to_string(), vec![1])]
    );
}
