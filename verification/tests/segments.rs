use message_broker::segment::{encode_segment, read_line, segment_number, FLUSH_THRESHOLD};

#[test]
fn the_flush_threshold_is_ten() {
    assert_eq!(FLUSH_THRESHOLD, 10);
}

#[test]
fn a_segment_holds_one_payload_per_line() {
    assert_eq!(encode_segment(&vec![]), Vec::<u8>::new());
    assert_eq!(encode_segment(&vec![b"a".to_vec()]), b"a\n".to_vec());
    assert_eq!(encode_segment(&vec![b"a".to_vec(), b"bc".to_vec()]), b"a\nbc\n".to_vec());
    assert_eq!(
        encode_segment(&vec![vec![], vec![0, 255], vec![]]),
        vec![b'\n', 0, 255, b'\n', b'\n']
    );
}

#[test]
fn a_line_is_found_by_its_position() {
    let content = b"zero\none\n\nthree\n";
    assert_eq!(read_line(content, 0), b"zero".to_vec());
    assert_eq!(read_line(content, 1), b"one".to_vec());
    assert_eq!(read_line(content, 2), Vec::<u8>::new());
    assert_eq!(read_line(content, 3), b"three".to_vec());
}

#[test]
fn a_line_that_is_not_there_reads_as_empty() {
    let content = b"zero\none\n";
    assert_eq!(read_line(content, 2), Vec::<u8>::new());
    assert_eq!(read_line(content, 17), Vec::<u8>::new());
    assert_eq!(read_line(content, i32::MAX), Vec::<u8>::new());
    assert_eq!(read_line(content, -1), Vec::<u8>::new());
    assert_eq!(read_line(content, i32::MIN), Vec::<u8>::new());
    assert_eq!(read_line(b"", 0), Vec::<u8>::new());
}

#[test]
fn a_last_line_without_its_newline_still_counts() {
    assert_eq!(read_line(b"zero\ntail", 1), b"tail".to_vec());
    assert_eq!(read_line(b"tail", 0), b"tail".to_vec());
}

#[test]
fn lines_are_raw_bytes() {
    let content = [0xff, 0x00, b'\r', b'\n', 0xc3, b'\n'];
    assert_eq!(read_line(&content, 0), vec![0xff, 0x00, b'\r']);
    assert_eq!(read_line(&content, 1), vec![0xc3]);
}

#[test]
fn a_segment_gives_back_its_payloads() {
    let batch: Vec<Vec<u8>> = (0..10).map(|i| format!("payload {}", i).into_bytes()).collect();
    let content = encode_segment(&batch);
    for (line, payload) in batch.iter().enumerate() {
        assert_eq!(&read_line(&content, line as i32), payload);
    }
    assert_eq!(read_line(&content, 10), Vec::<u8>::new());
}

#[test]
fn a_newline_in_a_payload_shifts_the_lines_after_it() {
    let batch = vec![b"a\nb".to_vec(), b"c".to_vec()];
    let content = encode_segment(&batch);
    assert_eq!(content, b"a\nb\nc\n".to_vec());
    assert_eq!(read_line(&content, 0), b"a".to_vec());
    assert_eq!(read_line(&content, 1), b"b".to_vec());
    assert_eq!(read_line(&content, 2), b"c".to_vec());
}

#[test]
fn segment_numbers_are_multiples_of_ten_towards_zero() {
    assert_eq!(segment_number(0), 0);
    assert_eq!(segment_number(9), 0);
    assert_eq!(segment_number(10), 10);
    assert_eq!(segment_number(19), 10);
    assert_eq!(segment_number(20), 20);
    assert_eq!(segment_number(i32::MAX), 2_147_483_640);
    assert_eq!(segment_number(-1), 0);
    assert_eq!(segment_number(-9), 0);
    assert_eq!(segment_number(-10), -10);
    assert_eq!(segment_number(-15), -10);
    assert_eq!(segment_number(i32::MIN), -2_147_483_640);
}
