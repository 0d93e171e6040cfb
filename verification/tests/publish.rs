use message_broker::errors::BrokerError;
use message_broker::segment::read_line;
use message_broker::store::MessageSource;
use message_broker::topic_state::Topic;

fn payload(i: u32) -> Vec<u8> {
    format!("message {}", i).into_bytes()
}

#[test]
fn messages_without_a_key_go_round_the_partitions() {
    let mut registry = Topic::new();
    registry.add_topic("orders".to_string(), 3);
    let mut seen = Vec::new();
    for i in 0..7 {
        let published = registry.send_message(None, payload(i), "orders".to_string()).unwrap();
        seen.push(published.partition);
    }
    assert_eq!(seen, vec![0, 1, 2, 0, 1, 2, 0]);
}

#[test]
fn the_round_goes_on_after_the_cursor() {
    let mut registry = Topic::new();
    registry.add_topic("orders".to_string(), 4);
    for i in 0..6 {
        registry.send_message(None, payload(i), "orders".to_string()).unwrap();
    }
    // the cursor stands at (−1 + 6) % 4 = 1, so the next three go to 2, 3, 0
    let mut seen = Vec::new();
    for i in 6..9 {
        seen.push(registry.send_message(None, payload(i), "orders".to_string()).unwrap().partition);
    }
    assert_eq!(seen, vec![2, 3, 0]);
}

#[test]
fn keyed_messages_do_not_move_the_cursor() {
    let mut registry = Topic::new();
    registry.add_topic("orders".to_string(), 4);
    assert_eq!(registry.send_message(None, payload(0), "orders".to_string()).unwrap().partition, 0);
    registry.send_message(Some("k".to_string()), payload(1), "orders".to_string()).unwrap();
    registry.send_message(Some("other".to_string()), payload(2), "orders".to_string()).unwrap();
    assert_eq!(registry.send_message(None, payload(3), "orders".to_string()).unwrap().partition, 1);
}

#[test]
fn one_key_always_meets_one_partition() {
    let mut registry = Topic::new();
    registry.add_topic("orders".to_string(), 5);
    let first = registry
        .send_message(Some("customer-17".to_string()), payload(0), "orders".to_string())
        .unwrap()
        .partition;
    for i in 1..30 {
        registry.send_message(None, payload(100 + i), "orders".to_string()).unwrap();
        let again = registry
            .send_message(Some("customer-17".to_string()), payload(i), "orders".to_string())
            .unwrap()
            .partition;
        assert_eq!(again, first);
    }
}

#[test]
fn a_key_goes_to_its_hash_modulo_the_partition_count() {
    // the partitions of each key among 1, 2, 3, 4, 7 and 64
    let expected: [(&str, [i32; 6]); 6] = [
        ("", [0, 1, 2, 1, 2, 37]),
        ("a", [0, 0, 1, 0, 5, 12]),
        ("foobar", [0, 0, 0, 0, 6, 40]),
        ("test", [0, 1, 1, 1, 2, 37]),
        ("ключ", [0, 1, 0, 1, 6, 1]),
        ("customer-17", [0, 0, 2, 0, 5, 32]),
    ];
    for (position, count) in [1, 2, 3, 4, 7, 64].into_iter().enumerate() {
        let mut registry = Topic::new();
        registry.add_topic("orders".to_string(), count);
        for (key, partitions) in expected {
            let published = registry
                .send_message(Some(key.to_string()), payload(0), "orders".to_string())
                .unwrap();
            assert_eq!(published.partition, partitions[position]);
            assert_eq!(registry.string_to_index(key, count), partitions[position] as u64);
        }
    }
}

#[test]
fn a_publish_reports_the_offset_of_the_message() {
    let mut registry = Topic::new();
    registry.add_topic("orders".to_string(), 2);
    let offsets: Vec<(i32, i32)> = (0..5)
        .map(|i| {
            let published = registry.send_message(None, payload(i), "orders".to_string()).unwrap();
            (published.partition, published.offset)
        })
        .collect();
    assert_eq!(offsets, vec![(0, 0), (1, 0), (0, 1), (1, 1), (0, 2)]);
    assert_eq!(registry.total_messages("orders", 0), Some(3));
    assert_eq!(registry.total_messages("orders", 1), Some(2));
}

#[test]
fn a_cached_message_is_read_back_byte_for_byte() {
    let mut registry = Topic::new();
    registry.add_topic("orders".to_string(), 1);
    let payloads: Vec<Vec<u8>> =
        vec![b"first".to_vec(), vec![], vec![0, 255, 10, 13], b"last\n".to_vec()];
    for data in &payloads {
        registry.send_message(None, data.clone(), "orders".to_string()).unwrap();
    }
    for (offset, data) in payloads.iter().enumerate() {
        match registry.read_message_from_topic_and_partition("orders", &0, offset as i32) {
            Ok(MessageSource::Cache(found)) => assert_eq!(&found, data),
            other => panic!("offset {} was not served from the cache: {:?}", offset, other),
        }
    }
}

#[test]
fn the_tenth_message_of_a_partition_flushes_its_batch() {
    let mut registry = Topic::new();
    registry.add_topic("orders".to_string(), 1);
    for i in 0..9 {
        let published = registry.send_message(None, payload(i), "orders".to_string()).unwrap();
        assert!(published.flush.is_none());
        assert_eq!(registry.cached_messages("orders", 0), Some(i as usize + 1));
    }
    let published = registry.send_message(None, payload(9), "orders".to_string()).unwrap();
    let segment = published.flush.expect("the tenth message completes the batch");
    assert_eq!(published.offset, 9);
    assert_eq!(segment.file_number, 0);
    let mut expected = Vec::new();
    for i in 0..10 {
        expected.extend_from_slice(&payload(i));
        expected.push(b'\n');
    }
    assert_eq!(segment.content, expected);
    assert_eq!(registry.cached_messages("orders", 0), Some(0));
    assert_eq!(registry.total_messages("orders", 0), Some(10));
}

#[test]
fn the_second_batch_goes_to_the_file_named_ten() {
    let mut registry = Topic::new();
    registry.add_topic("orders".to_string(), 1);
    let mut files = Vec::new();
    for i in 0..25 {
        let published = registry.send_message(None, payload(i), "orders".to_string()).unwrap();
        if let Some(segment) = published.flush {
            files.push((published.offset, segment.file_number, segment.content));
        }
    }
    assert_eq!(files.len(), 2);
    assert_eq!((files[0].0, files[0].1), (9, 0));
    assert_eq!((files[1].0, files[1].1), (19, 10));
    let mut second = Vec::new();
    for i in 10..20 {
        second.extend_from_slice(&payload(i));
        second.push(b'\n');
    }
    assert_eq!(files[1].2, second);
    assert_eq!(registry.cached_messages("orders", 0), Some(5));
    assert_eq!(registry.total_messages("orders", 0), Some(25));
}

#[test]
fn ten_messages_over_two_partitions_stay_in_the_caches() {
    let mut registry = Topic::new();
    assert_eq!(registry.add_topic("orders".to_string(), 2), Some(2));
    let mut segments = 0;
    for i in 0..10 {
        let published = registry.send_message(None, payload(i), "orders".to_string()).unwrap();
        assert_eq!(published.partition, (i % 2) as i32);
        if published.flush.is_some() {
            segments += 1;
        }
    }
    // no partition has received its tenth message yet
    assert_eq!(segments, 0);
    for partition in 0..2 {
        assert_eq!(registry.total_messages("orders", partition), Some(5));
        assert_eq!(registry.cached_messages("orders", partition), Some(5));
        for offset in 0..5 {
            let source =
                registry.read_message_from_topic_and_partition("orders", &partition, offset);
            match source {
                Ok(MessageSource::Cache(found)) => {
                    assert_eq!(found, payload((offset * 2 + partition) as u32))
                }
                other => panic!("not served from the cache: {:?}", other),
            }
        }
    }
}

#[test]
fn one_segment_for_the_partition_that_got_its_tenth_message() {
    let mut registry = Topic::new();
    registry.add_topic("orders".to_string(), 2);
    let mut segments = Vec::new();
    for i in 0..19 {
        let published = registry.send_message(None, payload(i), "orders".to_string()).unwrap();
        if let Some(segment) = published.flush {
            segments.push((published.partition, segment.file_number));
        }
    }
    assert_eq!(segments, vec![(0, 0)]);
    // the other partition is still served from its cache alone
    assert_eq!(registry.cached_messages("orders", 1), Some(9));
    assert_eq!(registry.total_messages("orders", 1), Some(9));
    for offset in 0..9 {
        match registry.read_message_from_topic_and_partition("orders", &1, offset) {
            Ok(MessageSource::Cache(found)) => assert_eq!(found, payload((offset * 2 + 1) as u32)),
            other => panic!("not served from the cache: {:?}", other),
        }
    }
    assert_eq!(registry.cached_messages("orders", 0), Some(0));
}

#[test]
fn a_flushed_message_is_referred_to_a_segment_file() {
    let mut registry = Topic::new();
    registry.add_topic("orders".to_string(), 1);
    for i in 0..23 {
        registry.send_message(None, payload(i), "orders".to_string()).unwrap();
    }
    // offsets 20..23 are in the cache, everything below is on disk
    for offset in 20..23 {
        match registry.read_message_from_topic_and_partition("orders", &0, offset) {
            Ok(MessageSource::Cache(found)) => assert_eq!(found, payload(offset as u32)),
            other => panic!("not served from the cache: {:?}", other),
        }
    }
    match registry.read_message_from_topic_and_partition("orders", &0, 3) {
        Ok(MessageSource::Segment { file_number, line }) => {
            assert_eq!((file_number, line), (0, 3))
        }
        other => panic!("not referred to a segment: {:?}", other),
    }
    match registry.read_message_from_topic_and_partition("orders", &0, 17) {
        Ok(MessageSource::Segment { file_number, line }) => {
            assert_eq!((file_number, line), (10, 17))
        }
        other => panic!("not referred to a segment: {:?}", other),
    }
    match registry.read_message_from_topic_and_partition("orders", &0, -4) {
        Ok(MessageSource::Segment { file_number, line }) => {
            assert_eq!((file_number, line), (0, -4))
        }
        other => panic!("not referred to a segment: {:?}", other),
    }
}

#[test]
fn reads_are_bounded_by_the_counter() {
    let mut registry = Topic::new();
    registry.add_topic("orders".to_string(), 1);
    for i in 0..5 {
        registry.send_message(None, payload(i), "orders".to_string()).unwrap();
    }
    assert!(matches!(
        registry.read_message_from_topic_and_partition("orders", &0, 4),
        Ok(MessageSource::Cache(_))
    ));
    for offset in [5, 6, 100, i32::MAX] {
        let refused = registry.read_message_from_topic_and_partition("orders", &0, offset);
        assert_eq!(refused.err(), Some(BrokerError::OutOfRange));
    }
    for (topic, partition) in [("bills", 0), ("orders", 1), ("orders", -1)] {
        let refused = registry.read_message_from_topic_and_partition(topic, &partition, 0);
        assert_eq!(refused.err(), Some(BrokerError::NotFound));
    }
}

#[test]
fn the_first_segment_gives_back_each_message_at_the_line_of_its_offset() {
    let mut registry = Topic::new();
    registry.add_topic("orders".to_string(), 1);
    let mut segments = Vec::new();
    for i in 0..20 {
        let published = registry.send_message(None, payload(i), "orders".to_string()).unwrap();
        if let Some(segment) = published.flush {
            segments.push(segment.content);
        }
    }
    assert_eq!(segments.len(), 2);
    for offset in 0..10 {
        assert_eq!(read_line(&segments[0], offset), payload(offset as u32));
    }
    // the second segment holds the offsets 10 to 19 at the lines 0 to 9
    for offset in 10..20 {
        assert_eq!(read_line(&segments[1], offset - 10), payload(offset as u32));
        assert_eq!(read_line(&segments[1], offset), Vec::<u8>::new());
    }
}

#[test]
fn a_flushed_message_of_the_first_batch_reads_back_by_its_offset() {
    let mut registry = Topic::new();
    registry.add_topic("t".to_string(), 1);
    let mut written = None;
    for i in 0..10u8 {
        let published = registry.send_message(None, vec![97 + i], "t".to_string()).unwrap();
        if let Some(segment) = published.flush {
            written = Some((segment.file_number, segment.content));
        }
    }
    let (written_to, content) = written.expect("the tenth message completes the batch");
    for offset in 0..10 {
        match registry.read_message_from_topic_and_partition("t", &0, offset) {
            Ok(MessageSource::Segment { file_number, line }) => {
                // the read opens the file that the flush wrote
                assert_eq!(file_number, written_to);
                assert_eq!(read_line(&content, line), vec![97 + offset as u8]);
            }
            other => panic!("offset {} is not on disk: {:?}", offset, other),
        }
    }
    assert_eq!(read_line(&content, 3), vec![100]);
}

#[test]
fn a_read_of_a_later_batch_opens_the_file_that_holds_it() {
    let mut registry = Topic::new();
    registry.add_topic("t".to_string(), 1);
    let mut files = Vec::new();
    for i in 0..30 {
        let published = registry.send_message(None, payload(i), "t".to_string()).unwrap();
        if let Some(segment) = published.flush {
            files.push(segment.file_number);
        }
    }
    assert_eq!(files, vec![0, 10, 20]);
    for offset in 0..30 {
        match registry.read_message_from_topic_and_partition("t", &0, offset) {
            Ok(MessageSource::Segment { file_number, line }) => {
                assert_eq!(file_number, files[(offset / 10) as usize]);
                // the line asked for is the offset itself, in every batch
                assert_eq!(line, offset);
            }
            other => panic!("offset {} is not on disk: {:?}", offset, other),
        }
    }
}

#[test]
fn a_key_keeps_its_partition_through_whatever_else_is_done() {
    let mut registry = Topic::new();
    registry.add_topic("orders".to_string(), 5);
    registry.add_topic("bills".to_string(), 3);
    let first = registry
        .send_message(Some("customer-17".to_string()), payload(0), "orders".to_string())
        .unwrap();
    assert_eq!((first.partition, first.offset), (2, 0));
    // other topics come and go, consumers join and leave, messages go elsewhere
    registry.add_topic("notes".to_string(), 2);
    registry.add_topic("orders".to_string(), 9);
    registry
        .send_message(Some("customer-17".to_string()), payload(1), "bills".to_string())
        .unwrap();
    registry.add_consumer("a", "orders").unwrap();
    registry.add_consumer("b", "orders").unwrap();
    registry.delete_topic("bills");
    registry.leave_consumer("a", "orders").unwrap();
    registry.disconnect_user("b");
    for i in 0..12 {
        registry.send_message(None, payload(10 + i), "orders".to_string()).unwrap();
    }
    registry.send_message(Some("a".to_string()), payload(2), "orders".to_string()).unwrap();
    let second = registry
        .send_message(Some("customer-17".to_string()), payload(3), "orders".to_string())
        .unwrap();
    assert_eq!(second.partition, first.partition);
    assert!(second.offset > first.offset);
    // the partition took the first message, two of the twelve, and this one
    assert_eq!(second.offset, 3);
}
