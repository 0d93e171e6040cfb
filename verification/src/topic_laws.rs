//! What holds of the registry across its operations.

use crate::consumer_group::{
    first_member, group_ok, has_member, joined, lemma_cleared_keeps_group,
    lemma_first_member_exists, lemma_group_covers, lemma_join_keeps_group,
    lemma_leave_keeps_group, reads, without, MemberView,
};
use crate::errors::BrokerError;
use crate::segment::{
    batch_floor, lemma_segment_round_trip, newline_free, segment_line, FLUSH_THRESHOLD,
};
use crate::store::{
    commit_result, effective_partitions, has_partition, locate, names_of, partition_of,
    SourceView,
};
use crate::text::lemma_position_unique;
use crate::topic_model::{
    after_create, after_disconnect, after_join, after_leave, after_operation, after_operations,
    after_publish, index_of_topic, join_result, joined_somewhere, knows, leave_result,
    lemma_publish_keeps_registry, lemma_selected_in_range, logs_of, partition_settled,
    publish_result, registry_ok, removes, selected_partition, topic_names, topic_of, topic_ok,
    with_members, Operation, TopicView,
};
use vstd::prelude::*;

verus! {

/// A new topic stands at the end of the registry, and the registry stays in
/// order. The topic has the partitions asked for, but never fewer than one:
/// a request for no partition, or for a negative number of them, makes one.
pub proof fn lemma_create_counts_partitions(v: Seq<TopicView>, name: Seq<char>, partitions: i32)
    requires
        registry_ok(v),
        !knows(v, name),
    ensures
        registry_ok(after_create(v, name, partitions as int)),
        knows(after_create(v, name, partitions as int), name),
        topic_of(after_create(v, name, partitions as int), name).partition_count
            == effective_partitions(partitions as int),
        topic_of(after_create(v, name, partitions as int), name).partitions.len()
            == effective_partitions(partitions as int),
        partitions <= 0 ==> topic_of(after_create(v, name, partitions as int), name).partition_count
            == 1,
{
    let after = after_create(v, name, partitions as int);
    let names = topic_names(after);
    assert(names =~= topic_names(v).push(name));
    assert forall|i: int, j: int| 0 <= i < j < names.len() implies names[i] != names[j] by {
        if j == v.len() {
            assert(topic_names(v)[i] == names[i]);
        } else {
            assert(topic_names(v)[i] != topic_names(v)[j]);
        }
    }
    lemma_position_unique(names, name, v.len() as int);
    assert(topic_ok(after[v.len() as int]));
    assert forall|k: int| 0 <= k < after.len() implies topic_ok(#[trigger] after[k]) by {
        if k < v.len() {
            assert(after[k] == v[k]);
            assert(topic_ok(v[k]));
        }
    }
}

/// Creating a topic a second time changes nothing, whatever partition count
/// the second request names: the count, the cursor and every counter stay.
pub proof fn lemma_create_is_idempotent(
    v: Seq<TopicView>,
    name: Seq<char>,
    first: int,
    second: int,
)
    ensures
        after_create(after_create(v, name, first), name, second) == after_create(v, name, first),
{
    let once = after_create(v, name, first);
    if !knows(v, name) {
        assert(topic_names(once)[v.len() as int] == name);
    }
}

/// Two topics with the same number of partitions send a key to the same
/// partition.
pub proof fn lemma_key_meets_one_partition(t1: TopicView, t2: TopicView, key: Seq<char>)
    requires
        t1.partition_count == t2.partition_count,
    ensures
        selected_partition(t1, Some(key)) == selected_partition(t2, Some(key)),
{
}

/// A topic that an operation does not delete stays where it was found by its
/// name, with its partition count, and none of its counters goes down. The
/// registry stays in order.
pub proof fn lemma_operation_keeps_topic(v: Seq<TopicView>, operation: Operation, name: Seq<char>)
    requires
        registry_ok(v),
        knows(v, name),
        !removes(operation, name),
    ensures
        registry_ok(after_operation(v, operation)),
        knows(after_operation(v, operation), name),
        topic_of(after_operation(v, operation), name).name == name,
        topic_of(after_operation(v, operation), name).partition_count == topic_of(
            v,
            name,
        ).partition_count,
        forall|p: int|
            0 <= p < topic_of(v, name).partition_count ==> (#[trigger] topic_of(
                after_operation(v, operation),
                name,
            ).partitions[p]).total >= topic_of(v, name).partitions[p].total,
{
    let w = after_operation(v, operation);
    let k = index_of_topic(v, name);
    assert(topic_names(v)[k] == name);
    assert(topic_ok(v[k]));
    match operation {
        Operation::Create { name: created, partitions } => {
            if !knows(v, created) {
                lemma_create_counts_partitions(v, created, partitions);
                assert(topic_names(w)[k] == name);
                lemma_position_unique(topic_names(w), name, k);
            }
        },
        Operation::Remove { name: removed } => {
            if knows(v, removed) {
                let j = index_of_topic(v, removed);
                assert(topic_names(v)[j] == removed);
                let to = if k < j {
                    k
                } else {
                    k - 1
                };
                assert(topic_names(w) =~= topic_names(v).remove(j));
                assert forall|a: int, b: int| 0 <= a < b < w.len() implies topic_names(w)[a]
                    != topic_names(w)[b] by {
                    let from_a = if a < j {
                        a
                    } else {
                        a + 1
                    };
                    let from_b = if b < j {
                        b
                    } else {
                        b + 1
                    };
                    assert(topic_names(w)[a] == topic_names(v)[from_a]);
                    assert(topic_names(w)[b] == topic_names(v)[from_b]);
                }
                assert forall|i: int| 0 <= i < w.len() implies topic_ok(#[trigger] w[i]) by {
                    let from = if i < j {
                        i
                    } else {
                        i + 1
                    };
                    assert(w[i] == v[from]);
                    assert(topic_ok(v[from]));
                }
                assert(w[to] == v[k]);
                assert(topic_names(w)[to] == name);
                lemma_position_unique(topic_names(w), name, to);
            }
        },
        Operation::Publish { key, data, name: target } => {
            lemma_publish_keeps_registry(v, key, data, target);
            assert(topic_names(w)[k] == name);
            lemma_position_unique(topic_names(w), name, k);
            if knows(v, target) {
                let to = index_of_topic(v, target);
                assert(topic_names(v)[to] == target);
                assert(topic_ok(v[to]));
                lemma_selected_in_range(v[to], key);
            }
        },
        Operation::Join { id, name: target } => {
            if knows(v, target) {
                lemma_join_leave_balance(v, id, target);
                assert(topic_names(w) =~= topic_names(v));
            }
            assert(topic_names(w)[k] == name);
            lemma_position_unique(topic_names(w), name, k);
        },
        Operation::Leave { id, name: target } => {
            if knows(v, target) {
                lemma_join_leave_balance(v, id, target);
                assert(topic_names(w) =~= topic_names(v));
            }
            assert(topic_names(w)[k] == name);
            lemma_position_unique(topic_names(w), name, k);
        },
        Operation::Disconnect { id } => {
            lemma_disconnect_hands_over(v, id);
            assert(topic_names(w)[k] == name);
            lemma_position_unique(topic_names(w), name, k);
            assert(w[k] == with_members(v[k], w[k].members));
        },
    }
}

/// What holds of one operation holds of a run of them: as long as none of
/// them deletes the topic, it keeps its partition count, and none of its
/// counters goes down.
pub proof fn lemma_operations_keep_topic(
    v: Seq<TopicView>,
    operations: Seq<Operation>,
    name: Seq<char>,
)
    requires
        registry_ok(v),
        knows(v, name),
        forall|i: int| 0 <= i < operations.len() ==> !removes(#[trigger] operations[i], name),
    ensures
        registry_ok(after_operations(v, operations)),
        knows(after_operations(v, operations), name),
        topic_of(after_operations(v, operations), name).partition_count == topic_of(
            v,
            name,
        ).partition_count,
        forall|p: int|
            0 <= p < topic_of(v, name).partition_count ==> (#[trigger] topic_of(
                after_operations(v, operations),
                name,
            ).partitions[p]).total >= topic_of(v, name).partitions[p].total,
    decreases operations.len(),
{
    if operations.len() > 0 {
        let earlier = operations.drop_last();
        let before = after_operations(v, earlier);
        assert forall|i: int| 0 <= i < earlier.len() implies !removes(
            #[trigger] earlier[i],
            name,
        ) by {
            assert(earlier[i] == operations[i]);
        }
        lemma_operations_keep_topic(v, earlier, name);
        lemma_operation_keeps_topic(before, operations.last(), name);
        let after = topic_of(after_operations(v, operations), name);
        assert forall|p: int| 0 <= p < topic_of(v, name).partition_count implies (
        #[trigger] after.partitions[p]).total >= topic_of(v, name).partitions[p].total by {
            assert(topic_of(before, name).partitions[p].total >= topic_of(
                v,
                name,
            ).partitions[p].total);
        }
    }
}

/// A message with the same key as an earlier one lands in the same partition
/// of the topic, at a higher offset, whatever was done to the registry in
/// between, as long as the topic was not deleted.
pub proof fn lemma_same_key_same_partition(
    v: Seq<TopicView>,
    name: Seq<char>,
    key: Seq<char>,
    first: Seq<u8>,
    between: Seq<Operation>,
    second: Seq<u8>,
)
    requires
        registry_ok(v),
        publish_result(v, Some(key), first, name).is_ok(),
        forall|i: int| 0 <= i < between.len() ==> !removes(#[trigger] between[i], name),
        publish_result(
            after_operations(after_publish(v, Some(key), first, name), between),
            Some(key),
            second,
            name,
        ).is_ok(),
    ensures
        publish_result(
            after_operations(after_publish(v, Some(key), first, name), between),
            Some(key),
            second,
            name,
        ).unwrap().partition == publish_result(v, Some(key), first, name).unwrap().partition,
        publish_result(
            after_operations(after_publish(v, Some(key), first, name), between),
            Some(key),
            second,
            name,
        ).unwrap().offset > publish_result(v, Some(key), first, name).unwrap().offset,
{
    let published = after_publish(v, Some(key), first, name);
    let partition = selected_partition(topic_of(v, name), Some(key));
    let k = index_of_topic(v, name);
    assert(topic_names(v)[k] == name);
    assert(topic_ok(v[k]));
    lemma_selected_in_range(v[k], Some(key));
    lemma_counters_never_decrease(v, Some(key), first, name, partition);
    lemma_publish_keeps_registry(v, Some(key), first, name);
    assert(topic_names(published)[k] == name);
    lemma_position_unique(topic_names(published), name, k);
    lemma_operations_keep_topic(published, between, name);
    let sooner = topic_of(published, name);
    let later = topic_of(after_operations(published, between), name);
    assert(later.partitions[partition].total >= sooner.partitions[partition].total);
}

/// The registry after a run of publishes without keys to one topic.
pub open spec fn after_unkeyed(v: Seq<TopicView>, name: Seq<char>, payloads: Seq<Seq<u8>>) -> Seq<
    TopicView,
>
    decreases payloads.len(),
{
    if payloads.len() == 0 {
        v
    } else {
        after_publish(after_unkeyed(v, name, payloads.drop_last()), None, payloads.last(), name)
    }
}

/// Messages without a key go round the partitions in turn. After `n` of them
/// the cursor of a topic with `count` partitions that stood at `c` stands at
/// `(c + n) % count`, so the next message goes to `(c + n + 1) % count`.
pub proof fn lemma_round_robin(v: Seq<TopicView>, name: Seq<char>, payloads: Seq<Seq<u8>>)
    requires
        registry_ok(v),
        knows(v, name),
    ensures
        registry_ok(after_unkeyed(v, name, payloads)),
        knows(after_unkeyed(v, name, payloads), name),
        topic_of(after_unkeyed(v, name, payloads), name).partition_count == topic_of(
            v,
            name,
        ).partition_count,
        payloads.len() > 0 ==> topic_of(after_unkeyed(v, name, payloads), name).cursor == (topic_of(
            v,
            name,
        ).cursor + payloads.len()) % topic_of(v, name).partition_count,
        selected_partition(topic_of(after_unkeyed(v, name, payloads), name), None) == (topic_of(
            v,
            name,
        ).cursor + payloads.len() + 1) % topic_of(v, name).partition_count,
    decreases payloads.len(),
{
    let count = topic_of(v, name).partition_count;
    let c = topic_of(v, name).cursor;
    let k = index_of_topic(v, name);
    assert(topic_names(v)[k] == name);
    assert(topic_ok(v[k]));
    if payloads.len() > 0 {
        let shorter = payloads.drop_last();
        let before = after_unkeyed(v, name, shorter);
        lemma_round_robin(v, name, shorter);
        lemma_publish_keeps_registry(before, None, payloads.last(), name);
        let after = after_unkeyed(v, name, payloads);
        assert(topic_names(after) == topic_names(before));
        let kb = index_of_topic(before, name);
        assert(topic_names(before)[kb] == name);
        assert(topic_of(after, name).cursor == selected_partition(topic_of(before, name), None));
        let n = payloads.len() as int;
        assert(((c + n) % count + 1) % count == (c + n + 1) % count) by (nonlinear_arith)
            requires
                count >= 1,
        ;
    }
}

/// A message that does not complete a batch is served from the cache, byte
/// for byte, at the offset that the publish reported.
pub proof fn lemma_cached_round_trip(
    v: Seq<TopicView>,
    key: Option<Seq<char>>,
    data: Seq<u8>,
    name: Seq<char>,
)
    requires
        registry_ok(v),
        publish_result(v, key, data, name).is_ok(),
        publish_result(v, key, data, name).unwrap().flush.is_none(),
    ensures
        locate(
            logs_of(after_publish(v, key, data, name)),
            name,
            publish_result(v, key, data, name).unwrap().partition,
            publish_result(v, key, data, name).unwrap().offset,
        ) == Ok::<SourceView, BrokerError>(SourceView::Cache(data)),
{
    let published = publish_result(v, key, data, name).unwrap();
    let after = after_publish(v, key, data, name);
    let k = index_of_topic(v, name);
    assert(topic_names(v)[k] == name);
    assert(topic_ok(v[k]));
    lemma_selected_in_range(v[k], key);
    lemma_publish_keeps_registry(v, key, data, name);
    lemma_logs_index(after, name, k);
    let log = v[k].partitions[published.partition];
    assert(partition_settled(log));
    let total = log.total;
    assert(batch_floor(total + 1) <= total) by {
        assert(total % 10 < 9);
    }
    assert(total % 10 == log.cache.len());
}

/// The store's side of the registry finds a topic where the registry has it.
pub proof fn lemma_logs_index(v: Seq<TopicView>, name: Seq<char>, k: int)
    requires
        registry_ok(v),
        0 <= k < v.len(),
        v[k].name == name,
    ensures
        crate::store::has_topic(logs_of(v), name),
        crate::store::topic_index(logs_of(v), name) == k,
        index_of_topic(v, name) == k,
        knows(v, name),
{
    assert(names_of(logs_of(v)) =~= topic_names(v));
    lemma_position_unique(topic_names(v), name, k);
}

/// A read of a flushed message is referred to the file that the flush
/// wrote: for every offset of the batch that a publish completes, the file
/// that a read of the offset asks for is the file that the batch went to.
pub proof fn lemma_flushed_batch_is_found(
    v: Seq<TopicView>,
    key: Option<Seq<char>>,
    data: Seq<u8>,
    name: Seq<char>,
    offset: int,
)
    requires
        registry_ok(v),
        publish_result(v, key, data, name).is_ok(),
        publish_result(v, key, data, name).unwrap().flush.is_some(),
        publish_result(v, key, data, name).unwrap().offset - (FLUSH_THRESHOLD - 1) <= offset,
        offset <= publish_result(v, key, data, name).unwrap().offset,
    ensures
        publish_result(v, key, data, name).unwrap().flush.unwrap().file_number == batch_floor(
            offset,
        ),
        publish_result(v, key, data, name).unwrap().flush.unwrap().file_number == publish_result(
            v,
            key,
            data,
            name,
        ).unwrap().offset - (FLUSH_THRESHOLD - 1),
        locate(
            logs_of(after_publish(v, key, data, name)),
            name,
            publish_result(v, key, data, name).unwrap().partition,
            offset,
        ) == Ok::<SourceView, BrokerError>(
            SourceView::Segment {
                file_number: publish_result(v, key, data, name).unwrap().flush.unwrap().file_number,
                line: offset,
            },
        ),
{
    let published = publish_result(v, key, data, name).unwrap();
    let after = after_publish(v, key, data, name);
    let k = index_of_topic(v, name);
    assert(topic_names(v)[k] == name);
    assert(topic_ok(v[k]));
    lemma_selected_in_range(v[k], key);
    lemma_publish_keeps_registry(v, key, data, name);
    lemma_logs_index(after, name, k);
    let log = v[k].partitions[published.partition];
    assert(partition_settled(log));
    assert(log.total % 10 == 9);
    assert(log.total == published.offset);
}

/// A message of a topic's first batch is read back byte for byte once the
/// batch is flushed: a read of its offset is referred to the file that the
/// flush wrote, and the line of that file at the offset is the payload, as
/// long as no payload of the batch holds a newline byte.
pub proof fn lemma_first_batch_round_trip(
    v: Seq<TopicView>,
    key: Option<Seq<char>>,
    data: Seq<u8>,
    name: Seq<char>,
    offset: int,
)
    requires
        registry_ok(v),
        publish_result(v, key, data, name).is_ok(),
        publish_result(v, key, data, name).unwrap().flush.is_some(),
        publish_result(v, key, data, name).unwrap().offset == FLUSH_THRESHOLD - 1,
        0 <= offset < FLUSH_THRESHOLD,
        newline_free(data),
        forall|i: int|
            0 <= i < FLUSH_THRESHOLD - 1 ==> newline_free(
                #[trigger] topic_of(v, name).partitions[publish_result(
                    v,
                    key,
                    data,
                    name,
                ).unwrap().partition].cache[i],
            ),
    ensures
        publish_result(v, key, data, name).unwrap().flush.unwrap().file_number == 0,
        locate(
            logs_of(after_publish(v, key, data, name)),
            name,
            publish_result(v, key, data, name).unwrap().partition,
            offset,
        ) == Ok::<SourceView, BrokerError>(SourceView::Segment { file_number: 0, line: offset }),
        segment_line(publish_result(v, key, data, name).unwrap().flush.unwrap().content, offset)
            == topic_of(v, name).partitions[publish_result(
            v,
            key,
            data,
            name,
        ).unwrap().partition].cache.push(data)[offset],
{
    let published = publish_result(v, key, data, name).unwrap();
    let log = topic_of(v, name).partitions[published.partition];
    let batch = log.cache.push(data);
    lemma_flushed_batch_is_found(v, key, data, name, offset);
    assert forall|j: int| 0 <= j < batch.len() implies newline_free(#[trigger] batch[j]) by {
        if j < 9 {
            assert(batch[j] == log.cache[j]);
        }
    }
    lemma_segment_round_trip(batch, offset as nat);
}

/// A publish never lowers a counter: the partition that takes the message
/// counts one more, and every other partition of the topic keeps its count.
pub proof fn lemma_counters_never_decrease(
    v: Seq<TopicView>,
    key: Option<Seq<char>>,
    data: Seq<u8>,
    name: Seq<char>,
    partition: int,
)
    requires
        registry_ok(v),
        knows(v, name),
        0 <= partition < topic_of(v, name).partition_count,
    ensures
        knows(after_publish(v, key, data, name), name),
        topic_of(after_publish(v, key, data, name), name).partitions[partition].total >= topic_of(
            v,
            name,
        ).partitions[partition].total,
        publish_result(v, key, data, name).is_ok() && partition == selected_partition(
            topic_of(v, name),
            key,
        ) ==> topic_of(after_publish(v, key, data, name), name).partitions[partition].total
            == topic_of(v, name).partitions[partition].total + 1,
{
    let k = index_of_topic(v, name);
    assert(topic_names(v)[k] == name);
    assert(topic_ok(v[k]));
    lemma_selected_in_range(v[k], key);
    lemma_publish_keeps_registry(v, key, data, name);
}

/// A read and a commit are both refused as out of range exactly when the
/// offset is at or past the partition's counter; every offset below the
/// counter, the one just below it among them, is accepted by both.
pub proof fn lemma_offset_bound(v: Seq<TopicView>, name: Seq<char>, partition: int, offset: int)
    requires
        registry_ok(v),
        has_partition(logs_of(v), name, partition),
    ensures
        offset >= partition_of(logs_of(v), name, partition).total ==> locate(
            logs_of(v),
            name,
            partition,
            offset,
        ) == Err::<SourceView, BrokerError>(BrokerError::OutOfRange) && commit_result(
            logs_of(v),
            name,
            partition,
            offset,
        ) == Err::<Seq<u8>, BrokerError>(BrokerError::OutOfRange),
        offset < partition_of(logs_of(v), name, partition).total ==> locate(
            logs_of(v),
            name,
            partition,
            offset,
        ).is_ok() && commit_result(logs_of(v), name, partition, offset).is_ok(),
{
    let k = crate::store::topic_index(logs_of(v), name);
    assert(names_of(logs_of(v)) =~= topic_names(v));
    assert(topic_names(v)[k] == name);
    assert(topic_ok(v[k]));
    let log = partition_of(logs_of(v), name, partition);
    assert(log == v[k].partitions[partition]);
    assert(partition_settled(log));
    if offset < log.total && offset >= batch_floor(log.total) {
        assert(offset % 10 < log.total % 10);
    }
}

/// A registry stays in order when one topic gets another group that keeps the
/// rules of a group.
pub proof fn lemma_regrouped_keeps_registry(
    v: Seq<TopicView>,
    k: int,
    members: Seq<MemberView>,
)
    requires
        registry_ok(v),
        0 <= k < v.len(),
        group_ok(members, v[k].partition_count),
    ensures
        registry_ok(v.update(k, with_members(v[k], members))),
        topic_names(v.update(k, with_members(v[k], members))) == topic_names(v),
{
    let after = v.update(k, with_members(v[k], members));
    assert(topic_ok(v[k]));
    assert(topic_names(after) =~= topic_names(v));
    assert forall|i: int| 0 <= i < after.len() implies topic_ok(#[trigger] after[i]) by {
        if i != k {
            assert(after[i] == v[i]);
            assert(topic_ok(v[i]));
        }
    }
}

/// Joins and leaves keep the balance of a group. After either, the registry
/// is in order, so that no partition of the topic is read by two members; and
/// unless the group is empty then, every partition of the topic is read by
/// one of its members.
pub proof fn lemma_join_leave_balance(v: Seq<TopicView>, id: Seq<char>, name: Seq<char>)
    requires
        registry_ok(v),
        knows(v, name),
    ensures
        registry_ok(after_join(v, id, name)),
        registry_ok(after_leave(v, id, name)),
        knows(after_join(v, id, name), name),
        knows(after_leave(v, id, name), name),
        join_result(v, name).is_ok() ==> topic_of(after_join(v, id, name), name).members.len()
            == topic_of(v, name).members.len() + 1,
        leave_result(v, id, name).is_ok() ==> topic_of(after_leave(v, id, name), name).members.len()
            == if topic_of(v, name).members.len() == 1 {
            0
        } else {
            topic_of(v, name).members.len() - 1
        },
        forall|p: int|
            0 <= p < topic_of(v, name).partition_count && topic_of(
                after_join(v, id, name),
                name,
            ).members.len() > 0 ==> reads(topic_of(after_join(v, id, name), name).members, p),
        forall|p: int|
            0 <= p < topic_of(v, name).partition_count && topic_of(
                after_leave(v, id, name),
                name,
            ).members.len() > 0 ==> reads(topic_of(after_leave(v, id, name), name).members, p),
{
    let k = index_of_topic(v, name);
    let topic = v[k];
    assert(topic_names(v)[k] == name);
    assert(topic_ok(topic));
    if join_result(v, name).is_ok() {
        let group = joined(topic.members, topic.partition_count, id);
        lemma_join_keeps_group(topic.members, topic.partition_count, id);
        lemma_regrouped_keeps_registry(v, k, group);
    }
    if leave_result(v, id, name).is_ok() {
        lemma_first_member_exists(topic.members, id);
        let index = first_member(topic.members, id);
        let group = without(topic.members, index);
        lemma_leave_keeps_group(topic.members, topic.partition_count, index);
        lemma_regrouped_keeps_registry(v, k, group);
    }
    let joined_to = after_join(v, id, name);
    let left_from = after_leave(v, id, name);
    assert(topic_names(joined_to)[k] == name);
    assert(topic_names(left_from)[k] == name);
    lemma_position_unique(topic_names(joined_to), name, k);
    lemma_position_unique(topic_names(left_from), name, k);
    assert(topic_ok(joined_to[k]));
    assert(topic_ok(left_from[k]));
    if joined_to[k].members.len() > 0 {
        lemma_group_covers(joined_to[k].members, topic.partition_count);
    }
    if left_from[k].members.len() > 0 {
        lemma_group_covers(left_from[k].members, topic.partition_count);
    }
}

/// After a disconnect the registry is in order and no group holds the
/// consumer any more. Every topic keeps its name, its place, its partitions
/// and its messages. A group that did not hold the consumer is unchanged. A
/// group that held it is empty if the consumer was all it held; otherwise
/// every partition of the topic, those of the consumer among them, is read
/// by a member that remains.
pub proof fn lemma_disconnect_hands_over(v: Seq<TopicView>, id: Seq<char>)
    requires
        registry_ok(v),
    ensures
        registry_ok(after_disconnect(v, id)),
        after_disconnect(v, id).len() == v.len(),
        topic_names(after_disconnect(v, id)) == topic_names(v),
        !joined_somewhere(after_disconnect(v, id), id),
        forall|k: int|
            #![trigger after_disconnect(v, id)[k]]
            0 <= k < v.len() ==> {
                let before = v[k].members;
                let after = after_disconnect(v, id)[k].members;
                &&& after_disconnect(v, id)[k] == with_members(v[k], after)
                &&& !has_member(after, id)
                &&& !has_member(before, id) ==> after == before
                &&& has_member(before, id) ==> after.len() < before.len()
                &&& after.len() > 0 ==> forall|p: int|
                    0 <= p < v[k].partition_count ==> reads(after, p)
            },
{
    let after = after_disconnect(v, id);
    assert(topic_names(after) =~= topic_names(v));
    assert forall|k: int| 0 <= k < v.len() implies topic_ok(#[trigger] after[k]) && !has_member(
        after[k].members,
        id,
    ) && (!has_member(v[k].members, id) ==> after[k].members == v[k].members) && (has_member(
        v[k].members,
        id,
    ) ==> after[k].members.len() < v[k].members.len()) && (after[k].members.len() > 0
        ==> forall|p: int| 0 <= p < v[k].partition_count ==> reads(after[k].members, p)) by {
        assert(topic_ok(v[k]));
        lemma_cleared_keeps_group(v[k].members, v[k].partition_count, id);
        if after[k].members.len() > 0 {
            lemma_group_covers(after[k].members, v[k].partition_count);
        }
    }
}

} // verus!
