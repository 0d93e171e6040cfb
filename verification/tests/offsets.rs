use message_broker::errors::BrokerError;
use message_broker::offset_store::{encode_offset, load_offset};
use message_broker::topic_state::Topic;

fn registry_with(total: u32) -> Topic {
    let mut registry = Topic::new();
    registry.add_topic("orders".to_string(), 1);
    for i in 0..total {
        registry.send_message(None, vec![i as u8], "orders".to_string()).unwrap();
    }
    registry
}

#[test]
fn an_offset_is_written_as_four_little_endian_bytes() {
    assert_eq!(encode_offset(0), vec![0, 0, 0, 0]);
    assert_eq!(encode_offset(4), vec![4, 0, 0, 0]);
    assert_eq!(encode_offset(256), vec![0, 1, 0, 0]);
    assert_eq!(encode_offset(0x0102_0304), vec![4, 3, 2, 1]);
    assert_eq!(encode_offset(i32::MAX), vec![255, 255, 255, 127]);
    assert_eq!(encode_offset(-1), vec![255, 255, 255, 255]);
    assert_eq!(encode_offset(-2), vec![254, 255, 255, 255]);
    assert_eq!(encode_offset(i32::MIN), vec![0, 0, 0, 128]);
    for value in [0, 1, -1, 77, 65_536, -65_537, i32::MAX, i32::MIN] {
        assert_eq!(encode_offset(value), value.to_le_bytes().to_vec());
    }
}

#[test]
fn an_offset_file_loads_back_what_was_written() {
    for value in [0, 1, 4, 255, 256, -1, -300, 1_000_000, i32::MAX, i32::MIN] {
        assert_eq!(load_offset(&encode_offset(value)), Some(value));
    }
    assert_eq!(load_offset(&[4, 0, 0, 0]), Some(4));
    assert_eq!(load_offset(&[0, 0, 0, 128]), Some(i32::MIN));
    assert_eq!(load_offset(&[255, 255, 255, 127]), Some(i32::MAX));
}

#[test]
fn an_offset_file_of_another_length_holds_no_offset() {
    assert_eq!(load_offset(&[]), None);
    assert_eq!(load_offset(&[4]), None);
    assert_eq!(load_offset(&[4, 0, 0]), None);
    assert_eq!(load_offset(&[4, 0, 0, 0, 0]), None);
}

#[test]
fn committing_the_counter_itself_is_refused() {
    let registry = registry_with(5);
    assert_eq!(registry.commit_offset("orders", &0, 5).err(), Some(BrokerError::OutOfRange));
    assert_eq!(registry.commit_offset("orders", &0, 6).err(), Some(BrokerError::OutOfRange));
    assert_eq!(
        registry.commit_offset("orders", &0, i32::MAX).err(),
        Some(BrokerError::OutOfRange)
    );
}

#[test]
fn committing_the_last_offset_persists_it() {
    let registry = registry_with(5);
    let content = registry.commit_offset("orders", &0, 4).unwrap();
    assert_eq!(content, vec![4, 0, 0, 0]);
    assert_eq!(load_offset(&content), Some(4));
}

#[test]
fn a_commit_may_go_back_and_below_zero() {
    let registry = registry_with(5);
    assert_eq!(registry.commit_offset("orders", &0, 4).unwrap(), vec![4, 0, 0, 0]);
    assert_eq!(registry.commit_offset("orders", &0, 1).unwrap(), vec![1, 0, 0, 0]);
    assert_eq!(registry.commit_offset("orders", &0, -1).unwrap(), vec![255, 255, 255, 255]);
}

#[test]
fn nothing_can_be_committed_to_an_empty_partition_but_what_lies_below_zero() {
    let registry = registry_with(0);
    assert_eq!(registry.commit_offset("orders", &0, 0).err(), Some(BrokerError::OutOfRange));
    assert!(registry.commit_offset("orders", &0, -1).is_ok());
}

#[test]
fn a_commit_needs_the_topic_and_the_partition() {
    let registry = registry_with(5);
    assert_eq!(registry.commit_offset("bills", &0, 0).err(), Some(BrokerError::NotFound));
    assert_eq!(registry.commit_offset("orders", &1, 0).err(), Some(BrokerError::NotFound));
    assert_eq!(registry.commit_offset("orders", &-1, 0).err(), Some(BrokerError::NotFound));
}
