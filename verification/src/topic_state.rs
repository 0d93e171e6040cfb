//! The topic registry.

use crate::consumer_group::{
    cleared_of, has_member, is_first_member, joined, lemma_first_member_unique,
    lemma_join_keeps_group, lemma_leave_keeps_group, without, MemberView,
};
use crate::errors::BrokerError;
use crate::hashing::hash_bytes;
use crate::segment::{encode_segment, segment_number, FLUSH_THRESHOLD};
use crate::store::{
    commit_result, effective_partitions, has_partition, locate, names_of, partition_of, store_ok,
    MessageSource, MessageStore, SourceView, TopicLog,
};
use crate::text::{lemma_position_unique, same_text};
use crate::topic_model::{
    after_create, after_disconnect, after_join, after_leave, after_publish, after_remove,
    index_of_topic, join_result, joined_somewhere, key_hash, knows, leave_result,
    lemma_publish_keeps_registry, lemma_selected_in_range, logs_of, new_topic, publish_result,
    registry_ok, topic_after_publish, topic_names, topic_of, topic_ok, with_members,
    PublishedView, SegmentView, TopicView,
};
use vstd::prelude::*;

verus! {

/// One consumer of a topic and the partitions it reads.
#[derive(Debug)]
pub struct ConsumerState {
    pub consumer_id: String,
    pub assigned_partitions: Vec<i32>,
    pub last_accessed_partition_index: i32,
}

impl View for ConsumerState {
    type V = MemberView;

    open spec fn view(&self) -> MemberView {
        MemberView {
            id: self.consumer_id@,
            assigned: Seq::new(
                self.assigned_partitions.len() as nat,
                |i: int| self.assigned_partitions[i] as int,
            ),
            last_accessed: self.last_accessed_partition_index as int,
        }
    }
}

/// The members of a group, in the order in which they joined.
pub open spec fn members_of(consumers: &Vec<ConsumerState>) -> Seq<MemberView> {
    Seq::new(consumers.len() as nat, |j: int| consumers[j]@)
}

/// What the registry keeps of a topic besides its messages and its group.
#[derive(Debug)]
pub struct Message {
    pub partition_count: i32,
    pub prev_written_partition: i32,
}

/// A segment file to be written: the number in its name and its content.
#[derive(Debug)]
pub struct SegmentWrite {
    pub file_number: i32,
    pub content: Vec<u8>,
}

impl View for SegmentWrite {
    type V = SegmentView;

    open spec fn view(&self) -> SegmentView {
        SegmentView { file_number: self.file_number as int, content: self.content@ }
    }
}

/// The outcome of an accepted publish: the partition that took the message,
/// the offset that the message got there, and the segment file to write where
/// the message completed a batch.
#[derive(Debug)]
pub struct Published {
    pub partition: i32,
    pub offset: i32,
    pub flush: Option<SegmentWrite>,
}

impl View for Published {
    type V = PublishedView;

    open spec fn view(&self) -> PublishedView {
        PublishedView {
            partition: self.partition as int,
            offset: self.offset as int,
            flush: match self.flush {
                Some(segment) => Some(segment@),
                None => None,
            },
        }
    }
}

/// The key of a message, as the contracts see it.
pub open spec fn key_of(key: Option<String>) -> Option<Seq<char>> {
    match key {
        Some(text) => Some(text@),
        None => None,
    }
}

struct TopicEntry {
    name: String,
    data: Message,
    consumers: Vec<ConsumerState>,
}

/// The topic registry: which topics exist, their partition counts and write
/// cursors, their messages and their consumer groups. The topics are kept in
/// the order of their creation and found by their names, of which no two are
/// the same.
pub struct Topic {
    topics: Vec<TopicEntry>,
    messages_store: MessageStore,
}

spec fn registry_view(topics: Vec<TopicEntry>, logs: Seq<TopicLog>) -> Seq<TopicView> {
    Seq::new(
        topics.len() as nat,
        |k: int|
            TopicView {
                name: topics[k].name@,
                partition_count: topics[k].data.partition_count as int,
                cursor: topics[k].data.prev_written_partition as int,
                partitions: logs[k].partitions,
                members: members_of(&topics[k].consumers),
            },
    )
}

/// The store holds the same topics as the registry, in the same order.
spec fn linked(topics: Vec<TopicEntry>, logs: Seq<TopicLog>) -> bool {
    &&& store_ok(logs)
    &&& logs.len() == topics.len()
    &&& forall|k: int| 0 <= k < topics.len() ==> (#[trigger] logs[k]).name == topics[k].name@
}

proof fn lemma_logs(topics: Vec<TopicEntry>, logs: Seq<TopicLog>)
    requires
        linked(topics, logs),
    ensures
        logs_of(registry_view(topics, logs)) == logs,
        topic_names(registry_view(topics, logs)) == names_of(logs),
{
}

impl View for Topic {
    type V = Seq<TopicView>;

    closed spec fn view(&self) -> Seq<TopicView> {
        registry_view(self.topics, self.messages_store@)
    }
}

fn find_member(consumers: &Vec<ConsumerState>, connection_id: &str) -> (found: Option<usize>)
    ensures
        match found {
            Some(j) => is_first_member(members_of(consumers), connection_id@, j as int),
            None => !has_member(members_of(consumers), connection_id@),
        },
{
    let mut j: usize = 0;
    while j < consumers.len()
        invariant
            j <= consumers.len(),
            forall|i: int|
                0 <= i < j ==> (#[trigger] members_of(consumers)[i]).id != connection_id@,
        decreases consumers.len() - j,
    {
        if same_text(consumers[j].consumer_id.as_str(), connection_id) {
            return Some(j);
        }
        j += 1;
    }
    None
}

/// Takes the member at `index` out of the group of topic `k`.
fn remove_member(topics: &mut Vec<TopicEntry>, k: usize, index: usize)
    requires
        k < old(topics).len(),
        index < old(topics)[k as int].consumers.len(),
    ensures
        final(topics).len() == old(topics).len(),
        forall|i: int| 0 <= i < old(topics).len() && i != k ==> final(topics)[i] == old(topics)[i],
        final(topics)[k as int].name == old(topics)[k as int].name,
        final(topics)[k as int].data == old(topics)[k as int].data,
        members_of(&final(topics)[k as int].consumers) == without(
            members_of(&old(topics)[k as int].consumers),
            index as int,
        ),
{
    let ghost members = members_of(&topics[k as int].consumers);
    let ghost after = without(members, index as int);
    if topics[k].consumers.len() <= 1 {
        topics[k].consumers.clear();
    } else {
        let mut removed = topics[k].consumers.remove(index);
        let ghost gone = removed@;
        let ghost rest = members_of(&topics[k as int].consumers);
        topics[k].consumers[0].assigned_partitions.append(&mut removed.assigned_partitions);
        proof {
            let now = members_of(&topics[k as int].consumers);
            assert forall|j: int| 0 <= j < now.len() implies now[j] == after[j] by {
                if j == 0 {
                    assert(now[0].assigned =~= rest[0].assigned + gone.assigned);
                }
            }
        }
    }
}

impl Topic {
    /// The registry's invariant: the rules of the registry hold of its view.
    /// It holds of every registry at all times.
    #[verifier::type_invariant]
    pub open spec fn wf(&self) -> bool {
        self.in_step() && registry_ok(self@)
    }

    /// The message store holds the topics of the registry, in their order.
    pub closed spec fn in_step(&self) -> bool {
        linked(self.topics, self.messages_store@)
    }

    /// A registry without topics.
    pub fn new() -> (registry: Self)
        ensures
            registry@ == Seq::<TopicView>::empty(),
    {
        Self { topics: Vec::new(), messages_store: MessageStore::new() }
    }

    /// Takes the registry apart for a change in several steps, leaving an
    /// empty one in its place until it is put together again.
    fn take_apart(&mut self) -> (parts: (Vec<TopicEntry>, MessageStore))
        ensures
            parts.0 == old(self).topics,
            parts.1 == old(self).messages_store,
    {
        let mut taken = Topic::new();
        std::mem::swap(self, &mut taken);
        let Topic { topics, messages_store } = taken;
        (topics, messages_store)
    }

    fn find(&self, topic_name: &str) -> (found: Option<usize>)
        ensures
            self.wf(),
            match found {
                Some(k) => {
                    &&& k < self.topics.len()
                    &&& knows(self@, topic_name@)
                    &&& k == index_of_topic(self@, topic_name@)
                },
                None => !knows(self@, topic_name@),
            },
    {
        proof {
            use_type_invariant(self);
        }
        let mut i: usize = 0;
        while i < self.topics.len()
            invariant
                i <= self.topics.len(),
                self.wf(),
                forall|k: int| 0 <= k < i ==> topic_names(self@)[k] != topic_name@,
            decreases self.topics.len() - i,
        {
            if same_text(self.topics[i].name.as_str(), topic_name) {
                proof {
                    lemma_position_unique(topic_names(self@), topic_name@, i as int);
                }
                return Some(i);
            }
            i += 1;
        }
        None
    }

    /// Whether a topic of this name exists.
    pub fn has_topic(&self, topic_name: &str) -> (known: bool)
        ensures
            known == knows(self@, topic_name@),
    {
        self.find(topic_name).is_some()
    }

    /// Creates a topic; fewer than one partition counts as one. Returns the
    /// partition count of the new topic, or `None` where the name was known
    /// already, in which case nothing changes.
    pub fn add_topic(&mut self, topic_name: String, partitions: i32) -> (created: Option<i32>)
        ensures
            registry_ok(final(self)@),
            final(self)@ == after_create(old(self)@, topic_name@, partitions as int),
            created == if knows(old(self)@, topic_name@) {
                None
            } else {
                Some(effective_partitions(partitions as int) as i32)
            },
    {
        if self.find(topic_name.as_str()).is_some() {
            return None;
        }
        let count: i32 = if partitions < 1 {
            1
        } else {
            partitions
        };
        let ghost before = self@;
        let (mut topics, mut messages_store) = self.take_apart();
        proof {
            lemma_logs(topics, messages_store@);
        }
        messages_store.add_topic(topic_name.clone(), count);
        topics.push(
            TopicEntry {
                name: topic_name,
                data: Message { partition_count: count, prev_written_partition: -1 },
                consumers: Vec::new(),
            },
        );
        proof {
            let made = new_topic(topic_name@, partitions as int);
            let now = registry_view(topics, messages_store@);
            assert(members_of(&topics[topics.len() - 1].consumers) =~= made.members);
            assert(topic_names(now) =~= topic_names(before).push(topic_name@));
            use_type_invariant(&messages_store);
        }
        *self = Topic { topics, messages_store };
        Some(count)
    }

    /// Removes a topic with its messages and its group. Returns whether the
    /// topic existed; an unknown name changes nothing.
    pub fn delete_topic(&mut self, topic_name: &str) -> (removed: bool)
        ensures
            registry_ok(final(self)@),
            final(self)@ == after_remove(old(self)@, topic_name@),
            removed == knows(old(self)@, topic_name@),
    {
        let ghost before = self@;
        match self.find(topic_name) {
            Some(k) => {
                let (mut topics, mut messages_store) = self.take_apart();
                proof {
                    lemma_logs(topics, messages_store@);
                }
                messages_store.delete_topic(topic_name);
                topics.remove(k);
                proof {
                    let now = registry_view(topics, messages_store@);
                    assert(topic_names(now) =~= topic_names(before).remove(k as int));
                    use_type_invariant(&messages_store);
                }
                *self = Topic { topics, messages_store };
                true
            },
            None => false,
        }
    }

    /// The partition that a keyed message goes to among `n` partitions: the
    /// key's hash modulo `n`.
    pub fn string_to_index(&self, s: &str, n: i32) -> (index: u64)
        requires
            1 <= n,
        ensures
            index == key_hash(s@) % (n as u64),
    {
        let hash = hash_bytes(s.as_bytes());
        hash % (n as u64)
    }

    /// Publishes a message to a topic. With a key the message goes to the
    /// partition of the key's hash, so that one key always meets one
    /// partition; without a key the partitions take turns, and the cursor
    /// moves on even where the partition refuses the message. A message that
    /// is the tenth of its batch empties the cache, and the batch comes back
    /// as the segment file to write. An unknown topic and a partition whose
    /// counter is exhausted refuse the message.
    pub fn send_message(&mut self, key: Option<String>, data: Vec<u8>, topic_name: String) -> (r:
        Result<Published, BrokerError>)
        ensures
            registry_ok(final(self)@),
            final(self)@ == after_publish(old(self)@, key_of(key), data@, topic_name@),
            match r {
                Ok(published) => publish_result(old(self)@, key_of(key), data@, topic_name@)
                    == Ok::<PublishedView, BrokerError>(published@),
                Err(e) => publish_result(old(self)@, key_of(key), data@, topic_name@) == Err::<
                    PublishedView,
                    BrokerError,
                >(e),
            },
    {
        let ghost before = self@;
        let k = match self.find(topic_name.as_str()) {
            Some(k) => k,
            None => {
                return Err(BrokerError::NotFound);
            },
        };
        let ghost topic = before[k as int];
        let ghost after = topic_after_publish(topic, key_of(key), data@);
        let partition_count = self.topics[k].data.partition_count;
        let index: i32 = match &key {
            Some(text) => self.string_to_index(text.as_str(), partition_count) as i32,
            None => (self.topics[k].data.prev_written_partition + 1) % partition_count,
        };
        let (mut topics, mut messages_store) = self.take_apart();
        proof {
            lemma_selected_in_range(topic, key_of(key));
            lemma_publish_keeps_registry(before, key_of(key), data@, topic_name@);
            lemma_logs(topics, messages_store@);
        }
        if key.is_none() {
            topics[k].data.prev_written_partition = index;
        }
        let ghost stored = messages_store@;
        let written = messages_store.write_to_cache(topic_name.as_str(), index, data);
        let (cache_size, total_messages_count) = match written {
            Ok(sizes) => sizes,
            Err(e) => {
                proof {
                    assert(registry_view(topics, messages_store@) =~= before.update(
                        k as int,
                        after,
                    ));
                }
                *self = Topic { topics, messages_store };
                return Err(e);
            },
        };
        let flush = if cache_size == FLUSH_THRESHOLD {
            let file_number_to_write_to = segment_number(total_messages_count - 1);
            let ghost filled = messages_store@;
            proof {
                assert(names_of(filled) =~= names_of(stored));
            }
            match messages_store.clear_vec_and_return(topic_name.as_str(), index) {
                Ok(vec_data) => {
                    let content = encode_segment(&vec_data);
                    Some(SegmentWrite { file_number: file_number_to_write_to, content })
                },
                Err(e) => {
                    *self = Topic { topics, messages_store };
                    return Err(e);
                },
            }
        } else {
            None
        };
        proof {
            assert(messages_store@[k as int].partitions =~= after.partitions);
            assert(registry_view(topics, messages_store@) =~= before.update(k as int, after));
            use_type_invariant(&messages_store);
        }
        *self = Topic { topics, messages_store };
        Ok(Published { partition: index, offset: total_messages_count - 1, flush })
    }

    /// Says where the message at `offset` of a partition is to be had: its
    /// payload where the cache still holds it, else the segment file and line
    /// to read. An unknown topic or partition is not found, and an offset at
    /// or past the partition's counter is out of range.
    pub fn read_message_from_topic_and_partition(
        &self,
        topic_name: &str,
        partition: &i32,
        offset: i32,
    ) -> (r: Result<MessageSource, BrokerError>)
        ensures
            match r {
                Ok(source) => locate(logs_of(self@), topic_name@, *partition as int, offset as int)
                    == Ok::<SourceView, BrokerError>(source@),
                Err(e) => locate(logs_of(self@), topic_name@, *partition as int, offset as int)
                    == Err::<SourceView, BrokerError>(e),
            },
    {
        proof {
            use_type_invariant(self);
            lemma_logs(self.topics, self.messages_store@);
        }
        self.messages_store.get_message_by_offset(partition, topic_name, offset)
    }

    /// Checks an offset against the partition's counter and, where it is
    /// below it, gives the bytes that the partition's offset file is to hold.
    /// An unknown topic or partition is not found, and an offset at or past
    /// the counter is out of range. Nothing else is asked of the offset: the
    /// last commit stands, whether or not it lies below an earlier one.
    pub fn commit_offset(&self, topic_name: &str, partition: &i32, offset: i32) -> (r: Result<
        Vec<u8>,
        BrokerError,
    >)
        ensures
            match r {
                Ok(bytes) => commit_result(
                    logs_of(self@),
                    topic_name@,
                    *partition as int,
                    offset as int,
                ) == Ok::<Seq<u8>, BrokerError>(bytes@),
                Err(e) => commit_result(
                    logs_of(self@),
                    topic_name@,
                    *partition as int,
                    offset as int,
                ) == Err::<Seq<u8>, BrokerError>(e),
            },
    {
        proof {
            use_type_invariant(self);
            lemma_logs(self.topics, self.messages_store@);
        }
        self.messages_store.commit_offset(partition, topic_name, offset)
    }

    /// Takes the member at `index` out of the group of topic `k` and puts the
    /// registry together again.
    fn leave_at(&mut self, k: usize, index: usize)
        requires
            k < old(self).topics.len(),
            index < old(self).topics[k as int].consumers.len(),
        ensures
            registry_ok(final(self)@),
            final(self)@ == old(self)@.update(
                k as int,
                with_members(
                    old(self)@[k as int],
                    without(old(self)@[k as int].members, index as int),
                ),
            ),
    {
        proof {
            use_type_invariant(&*self);
        }
        let ghost before = self@;
        proof {
            lemma_leave_keeps_group(
                before[k as int].members,
                before[k as int].partition_count,
                index as int,
            );
        }
        let (mut topics, messages_store) = self.take_apart();
        remove_member(&mut topics, k, index);
        proof {
            let now = registry_view(topics, messages_store@);
            assert(topic_names(now) =~= topic_names(before));
            assert forall|i: int| 0 <= i < now.len() implies topic_ok(#[trigger] now[i]) by {
                if i != k {
                    assert(topic_ok(before[i]));
                }
            }
        }
        *self = Topic { topics, messages_store };
    }

    /// Adds a consumer to the group of a topic. The first member of a group
    /// gets every partition; a later one takes over the partition that the
    /// first member got last. An unknown topic is not found, and a group as
    /// large as the number of partitions is full; either way nothing changes.
    pub fn add_consumer(&mut self, connection_id: &str, topic_name: &str) -> (r: Result<
        (),
        BrokerError,
    >)
        ensures
            registry_ok(final(self)@),
            r == join_result(old(self)@, topic_name@),
            final(self)@ == after_join(old(self)@, connection_id@, topic_name@),
    {
        let ghost before = self@;
        let k = match self.find(topic_name) {
            Some(k) => k,
            None => {
                return Err(BrokerError::NotFound);
            },
        };
        let ghost topic = before[k as int];
        let ghost members = topic.members;
        let partition_count = self.topics[k].data.partition_count;
        let consumers_count = self.topics[k].consumers.len();
        if consumers_count > 0 && consumers_count >= partition_count as usize {
            return Err(BrokerError::GroupFull);
        }
        proof {
            lemma_join_keeps_group(members, topic.partition_count, connection_id@);
        }
        let (mut topics, messages_store) = self.take_apart();
        let mut assigned: Vec<i32> = Vec::new();
        if consumers_count == 0 {
            let mut i: i32 = 0;
            while i < partition_count
                invariant
                    0 <= i <= partition_count,
                    assigned.len() == i,
                    forall|p: int| 0 <= p < i ==> assigned[p] == p,
                decreases partition_count - i,
            {
                assigned.push(i);
                i += 1;
            }
        } else {
            let taken_partition = topics[k].consumers[0].assigned_partitions.pop().unwrap();
            assigned.push(taken_partition);
        }
        let consumer_state = ConsumerState {
            consumer_id: connection_id.to_owned(),
            assigned_partitions: assigned,
            last_accessed_partition_index: -1,
        };
        topics[k].consumers.push(consumer_state);
        proof {
            let after = joined(members, topic.partition_count, connection_id@);
            let group = members_of(&topics[k as int].consumers);
            assert forall|j: int| 0 <= j < group.len() implies group[j] == after[j] by {
                assert(group[j].assigned =~= after[j].assigned);
            }
            assert(group =~= after);
            let now = registry_view(topics, messages_store@);
            assert(topic_names(now) =~= topic_names(before));
            assert forall|i: int| 0 <= i < now.len() implies topic_ok(#[trigger] now[i]) by {
                if i != k {
                    assert(topic_ok(before[i]));
                }
            }
        }
        *self = Topic { topics, messages_store };
        Ok(())
    }

    /// Takes a consumer out of the group of a topic. The last member leaves
    /// an empty group behind; otherwise the partitions of the consumer go to
    /// the first member that remains. An unknown topic is not found, nor is a
    /// consumer that the group does not hold; either way nothing changes.
    pub fn leave_consumer(&mut self, connection_id: &str, topic_name: &str) -> (r: Result<
        (),
        BrokerError,
    >)
        ensures
            registry_ok(final(self)@),
            r == leave_result(old(self)@, connection_id@, topic_name@),
            final(self)@ == after_leave(old(self)@, connection_id@, topic_name@),
    {
        let k = match self.find(topic_name) {
            Some(k) => k,
            None => {
                return Err(BrokerError::NotFound);
            },
        };
        let index = match find_member(&self.topics[k].consumers, connection_id) {
            Some(index) => index,
            None => {
                return Err(BrokerError::NotFound);
            },
        };
        proof {
            lemma_first_member_unique(self@[k as int].members, connection_id@, index as int);
        }
        self.leave_at(k, index);
        Ok(())
    }

    /// Cleans up after a consumer whose connection is gone: in every topic
    /// whose group holds the consumer it leaves, as often as it had joined.
    /// Afterwards no group holds it. Where none did nothing changes.
    pub fn disconnect_user(&mut self, connection_id: &str)
        ensures
            registry_ok(final(self)@),
            final(self)@ == after_disconnect(old(self)@, connection_id@),
            !joined_somewhere(final(self)@, connection_id@),
    {
        proof {
            use_type_invariant(&*self);
        }
        let ghost before = self@;
        let mut k: usize = 0;
        while k < self.topics.len()
            invariant
                self.wf(),
                self@.len() == before.len(),
                k <= self.topics.len(),
                forall|i: int|
                    0 <= i < k ==> #[trigger] self@[i] == with_members(
                        before[i],
                        cleared_of(before[i].members, connection_id@),
                    ) && !has_member(self@[i].members, connection_id@),
                forall|i: int| k <= i < self@.len() ==> #[trigger] self@[i] == before[i],
            decreases self.topics.len() - k,
        {
            let mut found = find_member(&self.topics[k].consumers, connection_id);
            while found.is_some()
                invariant
                    self.wf(),
                    self@.len() == before.len(),
                    k < self.topics.len(),
                    forall|i: int|
                        0 <= i < k ==> #[trigger] self@[i] == with_members(
                            before[i],
                            cleared_of(before[i].members, connection_id@),
                        ) && !has_member(self@[i].members, connection_id@),
                    forall|i: int| k < i < self@.len() ==> #[trigger] self@[i] == before[i],
                    self@[k as int] == with_members(before[k as int], self@[k as int].members),
                    cleared_of(self@[k as int].members, connection_id@) == cleared_of(
                        before[k as int].members,
                        connection_id@,
                    ),
                    match found {
                        Some(j) => is_first_member(
                            self@[k as int].members,
                            connection_id@,
                            j as int,
                        ),
                        None => !has_member(self@[k as int].members, connection_id@),
                    },
                decreases self@[k as int].members.len(),
            {
                let index = found.unwrap();
                proof {
                    lemma_first_member_unique(
                        self@[k as int].members,
                        connection_id@,
                        index as int,
                    );
                    lemma_leave_keeps_group(
                        self@[k as int].members,
                        self@[k as int].partition_count,
                        index as int,
                    );
                }
                self.leave_at(k, index);
                proof {
                    use_type_invariant(&*self);
                }
                found = find_member(&self.topics[k].consumers, connection_id);
            }
            k += 1;
        }
        proof {
            assert(self@ =~= after_disconnect(before, connection_id@));
        }
    }

    /// The number of partitions of a topic.
    pub fn partition_count(&self, topic_name: &str) -> (count: Option<i32>)
        ensures
            count == if knows(self@, topic_name@) {
                Some(topic_of(self@, topic_name@).partition_count as i32)
            } else {
                None
            },
    {
        match self.find(topic_name) {
            Some(k) => Some(self.topics[k].data.partition_count),
            None => None,
        }
    }

    /// The count of all messages that a partition ever took.
    pub fn total_messages(&self, topic_name: &str, partition: i32) -> (total: Option<i32>)
        ensures
            total == if has_partition(logs_of(self@), topic_name@, partition as int) {
                Some(partition_of(logs_of(self@), topic_name@, partition as int).total as i32)
            } else {
                None
            },
    {
        proof {
            use_type_invariant(self);
            lemma_logs(self.topics, self.messages_store@);
        }
        self.messages_store.total_messages(topic_name, partition)
    }

    /// The number of messages that wait in the cache of a partition.
    pub fn cached_messages(&self, topic_name: &str, partition: i32) -> (cached: Option<usize>)
        ensures
            cached == if has_partition(logs_of(self@), topic_name@, partition as int) {
                Some(
                    partition_of(logs_of(self@), topic_name@, partition as int).cache.len()
                        as usize,
                )
            } else {
                None
            },
    {
        proof {
            use_type_invariant(self);
            lemma_logs(self.topics, self.messages_store@);
        }
        self.messages_store.cached_messages(topic_name, partition)
    }

    /// The consumer group of a topic, in the order in which its members
    /// joined.
    pub fn consumers(&self, topic_name: &str) -> (group: Option<&Vec<ConsumerState>>)
        ensures
            match group {
                Some(consumers) => knows(self@, topic_name@) && members_of(consumers) == topic_of(
                    self@,
                    topic_name@,
                ).members,
                None => !knows(self@, topic_name@),
            },
    {
        match self.find(topic_name) {
            Some(k) => Some(&self.topics[k].consumers),
            None => None,
        }
    }
}

} // verus!
