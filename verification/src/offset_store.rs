//! The format of an offset file: one committed offset as four little-endian
//! bytes.

use vstd::prelude::*;

verus! {

/// The unsigned 32-bit pattern of `value` in two's complement.
pub open spec fn twos_complement(value: int) -> int {
    if value < 0 {
        value + 0x1_0000_0000
    } else {
        value
    }
}

/// The content of an offset file: the four little-endian bytes of `value`.
pub open spec fn offset_bytes(value: int) -> Seq<u8> {
    let u = twos_complement(value);
    seq![
        (u % 256) as u8,
        ((u / 256) % 256) as u8,
        ((u / 65536) % 256) as u8,
        ((u / 16777216) % 256) as u8,
    ]
}

/// The offset that a file content stands for, if it has the four bytes of one.
pub open spec fn offset_value(bytes: Seq<u8>) -> Option<int> {
    if bytes.len() == 4 {
        let u = bytes[0] as int + 256 * (bytes[1] as int) + 65536 * (bytes[2] as int) + 16777216
            * (bytes[3] as int);
        Some(
            if u >= 0x8000_0000 {
                u - 0x1_0000_0000
            } else {
                u
            },
        )
    } else {
        None
    }
}

/// Encodes a committed offset as the four little-endian bytes that the offset
/// file holds.
pub fn encode_offset(value: i32) -> (bytes: Vec<u8>)
    ensures
        bytes@ == offset_bytes(value as int),
{
    let wide: i64 = value as i64;
    let u: i64 = if wide < 0 {
        wide + 0x1_0000_0000
    } else {
        wide
    };
    let mut bytes: Vec<u8> = Vec::new();
    bytes.push((u % 256) as u8);
    bytes.push(((u / 256) % 256) as u8);
    bytes.push(((u / 65536) % 256) as u8);
    bytes.push(((u / 16777216) % 256) as u8);
    bytes
}

/// Reads a committed offset back from the content of an offset file; `None`
/// unless the content is exactly four bytes long.
pub fn load_offset(bytes: &[u8]) -> (value: Option<i32>)
    ensures
        match value {
            Some(v) => offset_value(bytes@) == Some(v as int),
            None => offset_value(bytes@).is_none(),
        },
{
    if bytes.len() != 4 {
        return None;
    }
    let u: i64 = bytes[0] as i64 + 256 * (bytes[1] as i64) + 65536 * (bytes[2] as i64) + 16777216
        * (bytes[3] as i64);
    if u >= 0x8000_0000 {
        Some((u - 0x1_0000_0000) as i32)
    } else {
        Some(u as i32)
    }
}

/// Every 32-bit offset survives being written to an offset file and loaded
/// again.
pub proof fn lemma_offset_round_trip(value: i32)
    ensures
        offset_value(offset_bytes(value as int)) == Some(value as int),
{
}

} // verus!
