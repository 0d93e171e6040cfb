//! The registry as the contracts see it: its view, its rules and what each
//! operation makes of it.

use crate::consumer_group::{
    cleared_of, group_ok, has_member, has_room, joined, left, MemberView,
};
use crate::errors::BrokerError;
use crate::hashing::fnv1a;
use crate::segment::{batch_floor, segment_bytes, FLUSH_THRESHOLD};
use crate::store::{effective_partitions, fresh_partitions, PartitionLog, TopicLog};
use crate::text::{distinct, listed, position};
use vstd::prelude::*;
use vstd::utf8::encode_utf8;

verus! {

/// A topic, as the contracts see it.
pub struct TopicView {
    pub name: Seq<char>,
    pub partition_count: int,
    /// The partition of the last unkeyed publish; -1 before the first.
    pub cursor: int,
    pub partitions: Seq<PartitionLog>,
    pub members: Seq<MemberView>,
}

/// The names of the topics, in the order in which they were created.
pub open spec fn topic_names(v: Seq<TopicView>) -> Seq<Seq<char>> {
    Seq::new(v.len(), |k: int| v[k].name)
}

/// Whether the registry has a topic of this name.
pub open spec fn knows(v: Seq<TopicView>, name: Seq<char>) -> bool {
    listed(topic_names(v), name)
}

/// The place of the topic of this name. Meaningful when `knows(v, name)`.
pub open spec fn index_of_topic(v: Seq<TopicView>, name: Seq<char>) -> int {
    position(topic_names(v), name)
}

/// The topic of this name. Meaningful when `knows(v, name)`.
pub open spec fn topic_of(v: Seq<TopicView>, name: Seq<char>) -> TopicView {
    v[index_of_topic(v, name)]
}

/// The message store's side of the registry.
pub open spec fn logs_of(v: Seq<TopicView>) -> Seq<TopicLog> {
    Seq::new(v.len(), |k: int| TopicLog { name: v[k].name, partitions: v[k].partitions })
}

/// Between two publishes a cache holds exactly the messages of the batch in
/// progress: as many as the counter's remainder by the flush threshold.
pub open spec fn partition_settled(p: PartitionLog) -> bool {
    0 <= p.total <= i32::MAX && p.cache.len() == p.total % (FLUSH_THRESHOLD as int)
}

/// The rules of one topic.
pub open spec fn topic_ok(t: TopicView) -> bool {
    &&& 1 <= t.partition_count <= i32::MAX
    &&& t.partitions.len() == t.partition_count
    &&& -1 <= t.cursor < t.partition_count
    &&& forall|p: int| 0 <= p < t.partitions.len() ==> partition_settled(#[trigger] t.partitions[p])
    &&& group_ok(t.members, t.partition_count)
}

/// The rules of the registry: no two topics share a name, and each topic is
/// in order.
pub open spec fn registry_ok(v: Seq<TopicView>) -> bool {
    &&& distinct(topic_names(v))
    &&& forall|k: int| 0 <= k < v.len() ==> topic_ok(#[trigger] v[k])
}

/// A topic as it is created: `partitions` empty partitions (at least one), the
/// cursor before the first partition, and no consumers.
pub open spec fn new_topic(name: Seq<char>, partitions: int) -> TopicView {
    TopicView {
        name,
        partition_count: effective_partitions(partitions),
        cursor: -1,
        partitions: fresh_partitions(effective_partitions(partitions)),
        members: Seq::empty(),
    }
}

/// The registry after `add_topic`: unchanged where the name is known.
pub open spec fn after_create(v: Seq<TopicView>, name: Seq<char>, partitions: int) -> Seq<
    TopicView,
> {
    if knows(v, name) {
        v
    } else {
        v.push(new_topic(name, partitions))
    }
}

/// The registry after `delete_topic`: unchanged where the name is unknown.
pub open spec fn after_remove(v: Seq<TopicView>, name: Seq<char>) -> Seq<TopicView> {
    if knows(v, name) {
        v.remove(index_of_topic(v, name))
    } else {
        v
    }
}

/// The hash of a message key: the 64-bit FNV-1a hash of the key's UTF-8
/// bytes. It depends on the key alone, so a key keeps its partition for as
/// long as the topic keeps its partition count.
pub open spec fn key_hash(key: Seq<char>) -> u64 {
    fnv1a(encode_utf8(key))
}

/// The topic with another group.
pub open spec fn with_members(t: TopicView, members: Seq<MemberView>) -> TopicView {
    TopicView {
        name: t.name,
        partition_count: t.partition_count,
        cursor: t.cursor,
        partitions: t.partitions,
        members,
    }
}

/// Whether a join is accepted: the topic must exist and its group must have
/// room.
pub open spec fn join_result(v: Seq<TopicView>, name: Seq<char>) -> Result<(), BrokerError> {
    if !knows(v, name) {
        Err(BrokerError::NotFound)
    } else if !has_room(topic_of(v, name).members, topic_of(v, name).partition_count) {
        Err(BrokerError::GroupFull)
    } else {
        Ok(())
    }
}

/// The registry after `add_consumer`: unchanged where the join is refused.
pub open spec fn after_join(v: Seq<TopicView>, id: Seq<char>, name: Seq<char>) -> Seq<TopicView> {
    if join_result(v, name).is_ok() {
        let t = topic_of(v, name);
        v.update(
            index_of_topic(v, name),
            with_members(t, joined(t.members, t.partition_count, id)),
        )
    } else {
        v
    }
}

/// Whether a leave is accepted: the topic must exist and hold a member with
/// this id.
pub open spec fn leave_result(v: Seq<TopicView>, id: Seq<char>, name: Seq<char>) -> Result<
    (),
    BrokerError,
> {
    if !knows(v, name) || !has_member(topic_of(v, name).members, id) {
        Err(BrokerError::NotFound)
    } else {
        Ok(())
    }
}

/// The registry after `leave_consumer`: unchanged where the leave is refused.
pub open spec fn after_leave(v: Seq<TopicView>, id: Seq<char>, name: Seq<char>) -> Seq<TopicView> {
    if leave_result(v, id, name).is_ok() {
        let t = topic_of(v, name);
        v.update(index_of_topic(v, name), with_members(t, left(t.members, id)))
    } else {
        v
    }
}

/// Some topic has a member with this id.
pub open spec fn joined_somewhere(v: Seq<TopicView>, id: Seq<char>) -> bool {
    exists|k: int| 0 <= k < v.len() && has_member((#[trigger] v[k]).members, id)
}

/// The registry after `disconnect_user`: in every topic, each member with
/// this id has left. The topics keep their names, places, partitions and
/// messages.
pub open spec fn after_disconnect(v: Seq<TopicView>, id: Seq<char>) -> Seq<TopicView> {
    Seq::new(v.len(), |k: int| with_members(v[k], cleared_of(v[k].members, id)))
}

/// A segment file to be written, as the contracts see it.
pub struct SegmentView {
    pub file_number: int,
    pub content: Seq<u8>,
}

/// The outcome of an accepted publish, as the contracts see it.
pub struct PublishedView {
    pub partition: int,
    pub offset: int,
    pub flush: Option<SegmentView>,
}

/// The partition that a message goes to. A keyed message goes to the key's
/// hash modulo the partition count; a message without a key goes to the
/// partition after the cursor, the first partition following the last.
pub open spec fn selected_partition(t: TopicView, key: Option<Seq<char>>) -> int {
    match key {
        Some(text) => (key_hash(text) % (t.partition_count as u64)) as int,
        None => (t.cursor + 1) % t.partition_count,
    }
}

/// A partition after it took a message: the counter grows by one, and the
/// cache either grows by the message or, where the message is the tenth of
/// its batch, is empty again.
pub open spec fn appended(log: PartitionLog, data: Seq<u8>) -> PartitionLog {
    if log.cache.len() + 1 == FLUSH_THRESHOLD {
        PartitionLog { cache: Seq::empty(), total: log.total + 1 }
    } else {
        PartitionLog { cache: log.cache.push(data), total: log.total + 1 }
    }
}

/// The segment file that a message completes, if it is the tenth of its
/// batch: named by the start of the batch, which is the offset of the
/// batch's first message and the batch floor of each of its offsets, and
/// holding the batch in append order.
pub open spec fn flush_of(log: PartitionLog, data: Seq<u8>) -> Option<SegmentView> {
    if log.cache.len() + 1 == FLUSH_THRESHOLD {
        Some(
            SegmentView {
                file_number: batch_floor(log.total),
                content: segment_bytes(log.cache.push(data)),
            },
        )
    } else {
        None
    }
}

/// What `send_message` returns.
pub open spec fn publish_result(
    v: Seq<TopicView>,
    key: Option<Seq<char>>,
    data: Seq<u8>,
    name: Seq<char>,
) -> Result<PublishedView, BrokerError> {
    if !knows(v, name) {
        Err(BrokerError::NotFound)
    } else {
        let t = topic_of(v, name);
        let p = selected_partition(t, key);
        let log = t.partitions[p];
        if log.total >= i32::MAX {
            Err(BrokerError::CounterExhausted)
        } else {
            Ok(PublishedView { partition: p, offset: log.total, flush: flush_of(log, data) })
        }
    }
}

/// The topic after a publish: a message without a key moves the cursor to the
/// partition it selected, and the selected partition takes the message unless
/// its counter is exhausted.
pub open spec fn topic_after_publish(
    t: TopicView,
    key: Option<Seq<char>>,
    data: Seq<u8>,
) -> TopicView {
    let p = selected_partition(t, key);
    TopicView {
        name: t.name,
        partition_count: t.partition_count,
        cursor: if key.is_none() {
            p
        } else {
            t.cursor
        },
        partitions: if t.partitions[p].total < i32::MAX {
            t.partitions.update(p, appended(t.partitions[p], data))
        } else {
            t.partitions
        },
        members: t.members,
    }
}

/// The registry after `send_message`: unchanged where the topic is unknown.
pub open spec fn after_publish(
    v: Seq<TopicView>,
    key: Option<Seq<char>>,
    data: Seq<u8>,
    name: Seq<char>,
) -> Seq<TopicView> {
    if knows(v, name) {
        v.update(index_of_topic(v, name), topic_after_publish(topic_of(v, name), key, data))
    } else {
        v
    }
}

/// In a topic that is in order, the selected partition is one of the topic's.
pub proof fn lemma_selected_in_range(t: TopicView, key: Option<Seq<char>>)
    requires
        topic_ok(t),
    ensures
        0 <= selected_partition(t, key) < t.partition_count,
{
    match key {
        Some(text) => {
            let n = t.partition_count as u64;
            assert(n == t.partition_count);
            assert(key_hash(text) % n < n);
        },
        None => {},
    }
}

/// A publish keeps a topic in order.
pub proof fn lemma_publish_keeps_topic(t: TopicView, key: Option<Seq<char>>, data: Seq<u8>)
    requires
        topic_ok(t),
    ensures
        topic_ok(topic_after_publish(t, key, data)),
        topic_after_publish(t, key, data).partition_count == t.partition_count,
{
    lemma_selected_in_range(t, key);
    let after = topic_after_publish(t, key, data);
    let p = selected_partition(t, key);
    assert(partition_settled(t.partitions[p]));
    assert forall|q: int| 0 <= q < after.partitions.len() implies partition_settled(
        #[trigger] after.partitions[q],
    ) by {
        if q != p {
            assert(partition_settled(t.partitions[q]));
        }
    }
}

/// A publish keeps the registry in order, and the topics keep their names and
/// places.
pub proof fn lemma_publish_keeps_registry(
    v: Seq<TopicView>,
    key: Option<Seq<char>>,
    data: Seq<u8>,
    name: Seq<char>,
)
    requires
        registry_ok(v),
    ensures
        registry_ok(after_publish(v, key, data, name)),
        topic_names(after_publish(v, key, data, name)) == topic_names(v),
{
    let after = after_publish(v, key, data, name);
    if knows(v, name) {
        let k = index_of_topic(v, name);
        assert(topic_names(v)[k] == name);
        assert(topic_ok(v[k]));
        lemma_publish_keeps_topic(v[k], key, data);
        assert(topic_names(after) =~= topic_names(v));
        assert forall|i: int| 0 <= i < after.len() implies topic_ok(#[trigger] after[i]) by {
            if i != k {
                assert(after[i] == v[i]);
                assert(topic_ok(v[i]));
            }
        }
    }
}

/// One operation on the registry, as the contracts see it.
pub enum Operation {
    Create { name: Seq<char>, partitions: i32 },
    Remove { name: Seq<char> },
    Publish { key: Option<Seq<char>>, data: Seq<u8>, name: Seq<char> },
    Join { id: Seq<char>, name: Seq<char> },
    Leave { id: Seq<char>, name: Seq<char> },
    Disconnect { id: Seq<char> },
}

/// The registry after one operation.
pub open spec fn after_operation(v: Seq<TopicView>, operation: Operation) -> Seq<TopicView> {
    match operation {
        Operation::Create { name, partitions } => after_create(v, name, partitions as int),
        Operation::Remove { name } => after_remove(v, name),
        Operation::Publish { key, data, name } => after_publish(v, key, data, name),
        Operation::Join { id, name } => after_join(v, id, name),
        Operation::Leave { id, name } => after_leave(v, id, name),
        Operation::Disconnect { id } => after_disconnect(v, id),
    }
}

/// The registry after a run of operations, the first one first.
pub open spec fn after_operations(v: Seq<TopicView>, operations: Seq<Operation>) -> Seq<TopicView>
    decreases operations.len(),
{
    if operations.len() == 0 {
        v
    } else {
        after_operation(after_operations(v, operations.drop_last()), operations.last())
    }
}

/// Whether the operation deletes the topic of this name.
pub open spec fn removes(operation: Operation, name: Seq<char>) -> bool {
    operation == (Operation::Remove { name })
}

} // verus!
