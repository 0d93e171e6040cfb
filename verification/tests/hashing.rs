use message_broker::hashing::{hash_bytes, FNV_OFFSET_BASIS, FNV_PRIME};

#[test]
fn the_hash_of_nothing_is_the_offset_basis() {
    assert_eq!(FNV_OFFSET_BASIS, 14_695_981_039_346_656_037);
    assert_eq!(FNV_PRIME, 1_099_511_628_211);
    assert_eq!(hash_bytes(b""), 0xcbf2_9ce4_8422_2325);
}

#[test]
fn the_hash_agrees_with_the_published_vectors() {
    assert_eq!(hash_bytes(b"a"), 0xaf63_dc4c_8601_ec8c);
    assert_eq!(hash_bytes(b"foobar"), 0x8594_4171_f739_67e8);
    assert_eq!(hash_bytes(b"test"), 0xf9e6_e6ef_197c_2b25);
}

#[test]
fn the_hash_folds_each_byte_in_turn() {
    let one = (FNV_OFFSET_BASIS ^ 0x61).wrapping_mul(FNV_PRIME);
    assert_eq!(hash_bytes(b"a"), one);
    let two = (one ^ 0x62).wrapping_mul(FNV_PRIME);
    assert_eq!(hash_bytes(b"ab"), two);
    assert_ne!(hash_bytes(b"ab"), hash_bytes(b"ba"));
    assert_ne!(hash_bytes(&[0]), hash_bytes(&[0, 0]));
}
