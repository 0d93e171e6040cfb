//! The format of a segment file: the payloads of one batch, one per line.

use vstd::prelude::*;

verus! {

/// The number of cached messages that triggers a segment write.
pub const FLUSH_THRESHOLD: i32 = 10;

/// The byte that ends every record of a segment file.
pub const RECORD_END: u8 = 0x0a;

/// The content of a segment file: each payload of the batch in append order,
/// each followed by one newline byte.
pub open spec fn segment_bytes(batch: Seq<Seq<u8>>) -> Seq<u8>
    decreases batch.len(),
{
    if batch.len() == 0 {
        Seq::<u8>::empty()
    } else {
        batch[0] + seq![RECORD_END] + segment_bytes(batch.drop_first())
    }
}

/// No byte of the payload is a newline.
pub open spec fn newline_free(payload: Seq<u8>) -> bool {
    forall|i: int| 0 <= i < payload.len() ==> payload[i] != RECORD_END
}

/// The length of the first line of `bytes`: the position of its first newline,
/// or its whole length where it holds none.
pub open spec fn line_end(bytes: Seq<u8>) -> int
    decreases bytes.len(),
{
    if bytes.len() == 0 || bytes[0] == RECORD_END {
        0
    } else {
        1 + line_end(bytes.drop_first())
    }
}

/// The line at position `line` of `bytes`, counted from zero and without its
/// newline; empty where `bytes` has no such line.
pub open spec fn line_at(bytes: Seq<u8>, line: nat) -> Seq<u8>
    decreases line,
{
    let end = line_end(bytes);
    if line == 0 {
        bytes.subrange(0, end)
    } else if end >= bytes.len() {
        Seq::<u8>::empty()
    } else {
        line_at(bytes.subrange(end + 1, bytes.len() as int), (line - 1) as nat)
    }
}

/// What a read of line `line` of a segment file gives: a negative position
/// names no line.
pub open spec fn segment_line(bytes: Seq<u8>, line: int) -> Seq<u8> {
    if line < 0 {
        Seq::<u8>::empty()
    } else {
        line_at(bytes, line as nat)
    }
}

/// The multiple of the flush threshold at or next to `count` on the side of
/// zero: the number in the name of a segment file.
pub open spec fn batch_floor(count: int) -> int {
    if count >= 0 {
        (count / (FLUSH_THRESHOLD as int)) * FLUSH_THRESHOLD
    } else {
        -(((-count) / (FLUSH_THRESHOLD as int)) * FLUSH_THRESHOLD)
    }
}

/// `line_end` lies within the sequence, no byte before it is a newline, and
/// the byte at it, if any, is one.
pub proof fn lemma_line_end_bounds(bytes: Seq<u8>)
    ensures
        0 <= line_end(bytes) <= bytes.len(),
        forall|i: int| 0 <= i < line_end(bytes) ==> bytes[i] != RECORD_END,
        line_end(bytes) < bytes.len() ==> bytes[line_end(bytes)] == RECORD_END,
    decreases bytes.len(),
{
    if bytes.len() > 0 && bytes[0] != RECORD_END {
        let rest = bytes.drop_first();
        lemma_line_end_bounds(rest);
        assert forall|i: int| 0 <= i < line_end(bytes) implies bytes[i] != RECORD_END by {
            if i > 0 {
                assert(bytes[i] == rest[i - 1]);
            }
        }
        if line_end(bytes) < bytes.len() {
            assert(bytes[line_end(bytes)] == rest[line_end(rest)]);
        }
    }
}

/// A position with no newline before it that is the end of `bytes` or holds a
/// newline is `line_end(bytes)`.
pub proof fn lemma_line_end_is(bytes: Seq<u8>, end: int)
    requires
        0 <= end <= bytes.len(),
        forall|i: int| 0 <= i < end ==> bytes[i] != RECORD_END,
        end < bytes.len() ==> bytes[end] == RECORD_END,
    ensures
        line_end(bytes) == end,
{
    lemma_line_end_bounds(bytes);
    let found = line_end(bytes);
    if found < end {
        assert(bytes[found] != RECORD_END);
    } else if end < found {
        assert(bytes[end] != RECORD_END);
    }
}

/// A segment file gives back, line by line, the payloads that were written to
/// it, as long as no payload holds a newline byte.
pub proof fn lemma_segment_round_trip(batch: Seq<Seq<u8>>, index: nat)
    requires
        index < batch.len(),
        forall|j: int| 0 <= j < batch.len() ==> newline_free(#[trigger] batch[j]),
    ensures
        line_at(segment_bytes(batch), index) == batch[index as int],
    decreases index,
{
    let bytes = segment_bytes(batch);
    let head = batch[0];
    let rest = batch.drop_first();
    assert(bytes == head + seq![RECORD_END] + segment_bytes(rest));
    assert(newline_free(head));
    assert forall|i: int| 0 <= i < head.len() implies bytes[i] != RECORD_END by {
        assert(bytes[i] == head[i]);
    }
    assert(bytes[head.len() as int] == RECORD_END);
    lemma_line_end_is(bytes, head.len() as int);
    if index == 0 {
        assert(bytes.subrange(0, head.len() as int) =~= head);
    } else {
        assert(bytes.subrange(head.len() as int + 1, bytes.len() as int) =~= segment_bytes(rest));
        assert forall|j: int| 0 <= j < rest.len() implies newline_free(#[trigger] rest[j]) by {
            assert(rest[j] == batch[j + 1]);
        }
        lemma_segment_round_trip(rest, (index - 1) as nat);
        assert(rest[index - 1] == batch[index as int]);
    }
}

/// Builds the content of a segment file from a drained batch.
pub fn encode_segment(batch: &Vec<Vec<u8>>) -> (bytes: Vec<u8>)
    ensures
        bytes@ == segment_bytes(payloads(batch)),
{
    let ghost all = payloads(batch);
    let mut bytes: Vec<u8> = Vec::new();
    let mut i: usize = 0;
    assert(all.subrange(0, all.len() as int) =~= all);
    while i < batch.len()
        invariant
            i <= batch.len(),
            all == payloads(batch),
            bytes@ + segment_bytes(all.subrange(i as int, all.len() as int)) == segment_bytes(all),
        decreases batch.len() - i,
    {
        let payload = &batch[i];
        let ghost before = bytes@;
        let ghost tail = all.subrange(i as int, all.len() as int);
        assert(tail.drop_first() =~= all.subrange(i + 1, all.len() as int));
        let mut j: usize = 0;
        while j < payload.len()
            invariant
                j <= payload.len(),
                bytes@ == before + payload@.subrange(0, j as int),
            decreases payload.len() - j,
        {
            bytes.push(payload[j]);
            j += 1;
        }
        bytes.push(RECORD_END);
        i += 1;
    }
    bytes
}

/// The payloads of a batch as sequences of bytes.
pub open spec fn payloads(batch: &Vec<Vec<u8>>) -> Seq<Seq<u8>> {
    Seq::new(batch.len() as nat, |i: int| batch[i]@)
}

/// Picks the line at position `line` out of the content of a segment file.
/// Where the file has no such line the result is empty.
pub fn read_line(content: &[u8], line: i32) -> (payload: Vec<u8>)
    ensures
        payload@ == segment_line(content@, line as int),
{
    let mut payload: Vec<u8> = Vec::new();
    if line < 0 {
        return payload;
    }
    let len = content.len();
    let mut start: usize = 0;
    let mut remaining: i32 = line;
    assert(content@.subrange(0, len as int) =~= content@);
    while remaining > 0
        invariant
            len == content.len(),
            start <= len,
            0 <= remaining <= line,
            payload@.len() == 0,
            line_at(content@, line as nat) == line_at(
                content@.subrange(start as int, len as int),
                remaining as nat,
            ),
        decreases remaining,
    {
        let ghost rest = content@.subrange(start as int, len as int);
        let ghost from = start;
        while start < len && content[start] != RECORD_END
            invariant
                len == content.len(),
                from <= start <= len,
                forall|i: int| from <= i < start ==> content@[i] != RECORD_END,
            decreases len - start,
        {
            start += 1;
        }
        proof {
            lemma_line_end_is(rest, start - from);
        }
        if start >= len {
            return payload;
        }
        assert(rest.subrange(start - from + 1, rest.len() as int) =~= content@.subrange(
            start + 1,
            len as int,
        ));
        start += 1;
        remaining -= 1;
    }
    let ghost rest = content@.subrange(start as int, len as int);
    let ghost from = start;
    while start < len && content[start] != RECORD_END
        invariant
            len == content.len(),
            from <= start <= len,
            rest == content@.subrange(from as int, len as int),
            forall|i: int| from <= i < start ==> content@[i] != RECORD_END,
            payload@ == rest.subrange(0, start - from),
        decreases len - start,
    {
        payload.push(content[start]);
        start += 1;
    }
    proof {
        lemma_line_end_is(rest, start - from);
    }
    payload
}

/// The number in the name of the segment file that a count or an offset falls
/// into.
pub fn segment_number(count: i32) -> (number: i32)
    ensures
        number == batch_floor(count as int),
{
    (count / FLUSH_THRESHOLD) * FLUSH_THRESHOLD
}

} // verus!
