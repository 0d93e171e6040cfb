//! The message store: per topic and partition, the cache of the batch in
//! progress and the count of all messages.

use crate::errors::BrokerError;
use crate::offset_store::{encode_offset, offset_bytes};
use crate::segment::{batch_floor, segment_number, FLUSH_THRESHOLD};
use crate::text::{distinct, lemma_position_unique, listed, position, same_text};
use vstd::prelude::*;

verus! {

/// What a partition holds: the payloads that wait in its cache, oldest first,
/// and the count of all messages ever appended to it.
pub struct PartitionLog {
    pub cache: Seq<Seq<u8>>,
    pub total: int,
}

/// What the store holds of one topic: its name and its partitions by index.
pub struct TopicLog {
    pub name: Seq<char>,
    pub partitions: Seq<PartitionLog>,
}

/// Where the message at an offset is to be had.
pub enum SourceView {
    /// The payload, served from the cache.
    Cache(Seq<u8>),
    /// A line of the segment file with the given number.
    Segment { file_number: int, line: int },
}

/// The names of the topics of a store, in the order in which they were added.
pub open spec fn names_of(s: Seq<TopicLog>) -> Seq<Seq<char>> {
    Seq::new(s.len(), |k: int| s[k].name)
}

/// A cache never holds more messages than were appended, and the counter fits
/// a 32-bit offset.
pub open spec fn partition_ok(p: PartitionLog) -> bool {
    0 <= p.cache.len() <= p.total <= i32::MAX
}

/// A topic has at least one partition, and each of them is in order.
pub open spec fn topic_log_ok(t: TopicLog) -> bool {
    &&& 1 <= t.partitions.len() <= i32::MAX
    &&& forall|p: int| 0 <= p < t.partitions.len() ==> partition_ok(#[trigger] t.partitions[p])
}

/// No two topics share a name, and each topic is in order.
pub open spec fn store_ok(s: Seq<TopicLog>) -> bool {
    &&& distinct(names_of(s))
    &&& forall|k: int| 0 <= k < s.len() ==> topic_log_ok(#[trigger] s[k])
}

/// Whether the store has a topic of this name.
pub open spec fn has_topic(s: Seq<TopicLog>, name: Seq<char>) -> bool {
    listed(names_of(s), name)
}

/// The place of the topic of this name. Meaningful when `has_topic(s, name)`.
pub open spec fn topic_index(s: Seq<TopicLog>, name: Seq<char>) -> int {
    position(names_of(s), name)
}

/// Whether the store has this partition of this topic.
pub open spec fn has_partition(s: Seq<TopicLog>, name: Seq<char>, partition: int) -> bool {
    has_topic(s, name) && 0 <= partition < s[topic_index(s, name)].partitions.len()
}

/// The partition of this topic at this index. Meaningful when
/// `has_partition(s, name, partition)`.
pub open spec fn partition_of(s: Seq<TopicLog>, name: Seq<char>, partition: int) -> PartitionLog {
    s[topic_index(s, name)].partitions[partition]
}

/// The store with one partition of one topic replaced.
pub open spec fn with_partition(
    s: Seq<TopicLog>,
    name: Seq<char>,
    partition: int,
    log: PartitionLog,
) -> Seq<TopicLog> {
    let k = topic_index(s, name);
    s.update(k, TopicLog { name: s[k].name, partitions: s[k].partitions.update(partition, log) })
}

/// The partition count that a topic is created with: at least one.
pub open spec fn effective_partitions(partitions: int) -> int {
    if partitions < 1 {
        1
    } else {
        partitions
    }
}

/// `count` partitions with empty caches and counters at zero.
pub open spec fn fresh_partitions(count: int) -> Seq<PartitionLog> {
    Seq::new(count as nat, |p: int| PartitionLog { cache: Seq::empty(), total: 0 })
}

/// The store after `add_topic`: unchanged where the name is known.
pub open spec fn after_add_topic(s: Seq<TopicLog>, name: Seq<char>, partitions: int) -> Seq<
    TopicLog,
> {
    if has_topic(s, name) {
        s
    } else {
        s.push(
            TopicLog { name, partitions: fresh_partitions(effective_partitions(partitions)) },
        )
    }
}

/// The store after `delete_topic`: unchanged where the name is unknown.
pub open spec fn after_delete_topic(s: Seq<TopicLog>, name: Seq<char>) -> Seq<TopicLog> {
    if has_topic(s, name) {
        s.remove(topic_index(s, name))
    } else {
        s
    }
}

/// Whether `write_to_cache` appends: the partition exists and its counter can
/// still grow.
pub open spec fn accepts_write(s: Seq<TopicLog>, name: Seq<char>, partition: int) -> bool {
    has_partition(s, name, partition) && partition_of(s, name, partition).total < i32::MAX
}

/// The store after `write_to_cache`.
pub open spec fn after_write(
    s: Seq<TopicLog>,
    name: Seq<char>,
    partition: int,
    message: Seq<u8>,
) -> Seq<TopicLog> {
    if accepts_write(s, name, partition) {
        let log = partition_of(s, name, partition);
        with_partition(
            s,
            name,
            partition,
            PartitionLog { cache: log.cache.push(message), total: log.total + 1 },
        )
    } else {
        s
    }
}

/// What `write_to_cache` returns: the new cache length and the new counter.
pub open spec fn write_result(s: Seq<TopicLog>, name: Seq<char>, partition: int) -> Result<
    (i32, i32),
    BrokerError,
> {
    if !has_partition(s, name, partition) {
        Err(BrokerError::NotFound)
    } else if partition_of(s, name, partition).total >= i32::MAX {
        Err(BrokerError::CounterExhausted)
    } else {
        let log = partition_of(s, name, partition);
        Ok(((log.cache.len() + 1) as i32, (log.total + 1) as i32))
    }
}

/// The store after `clear_vec_and_return`.
pub open spec fn after_clear(s: Seq<TopicLog>, name: Seq<char>, partition: int) -> Seq<TopicLog> {
    if has_partition(s, name, partition) {
        with_partition(
            s,
            name,
            partition,
            PartitionLog { cache: Seq::empty(), total: partition_of(s, name, partition).total },
        )
    } else {
        s
    }
}

/// Where the message at `offset` is to be had. An offset at or past the
/// counter is out of range. An offset in the batch that is still being
/// collected is served from the cache, at the offset's remainder by the flush
/// threshold; a cache that does not reach that far has lost the message. Any
/// other offset is referred to the segment file named by the offset's batch
/// floor, at the line with the offset's own number.
pub open spec fn locate(s: Seq<TopicLog>, name: Seq<char>, partition: int, offset: int) -> Result<
    SourceView,
    BrokerError,
> {
    if !has_partition(s, name, partition) {
        Err(BrokerError::NotFound)
    } else {
        let log = partition_of(s, name, partition);
        if log.total <= offset {
            Err(BrokerError::OutOfRange)
        } else if offset >= batch_floor(log.total) {
            if offset % (FLUSH_THRESHOLD as int) < log.cache.len() {
                Ok(SourceView::Cache(log.cache[offset % (FLUSH_THRESHOLD as int)]))
            } else {
                Err(BrokerError::NotFound)
            }
        } else {
            Ok(SourceView::Segment { file_number: batch_floor(offset), line: offset })
        }
    }
}

/// What a commit of `offset` gives: the bytes to persist, or the refusal.
pub open spec fn commit_result(
    s: Seq<TopicLog>,
    name: Seq<char>,
    partition: int,
    offset: int,
) -> Result<Seq<u8>, BrokerError> {
    if !has_partition(s, name, partition) {
        Err(BrokerError::NotFound)
    } else if partition_of(s, name, partition).total <= offset {
        Err(BrokerError::OutOfRange)
    } else {
        Ok(offset_bytes(offset))
    }
}

/// The cache of one partition and the count of all messages it ever took.
#[derive(Debug)]
pub struct MessageAndTotalMessageCount {
    pub messages: Vec<Vec<u8>>,
    total_messages: i32,
}

impl View for MessageAndTotalMessageCount {
    type V = PartitionLog;

    closed spec fn view(&self) -> PartitionLog {
        PartitionLog {
            cache: Seq::new(self.messages.len() as nat, |i: int| self.messages[i]@),
            total: self.total_messages as int,
        }
    }
}

/// Where the message at an offset is to be had.
#[derive(Debug)]
pub enum MessageSource {
    /// The payload, served from the cache.
    Cache(Vec<u8>),
    /// The message is in a segment file: read line `line` of the file whose
    /// name holds `file_number`.
    Segment { file_number: i32, line: i32 },
}

impl View for MessageSource {
    type V = SourceView;

    open spec fn view(&self) -> SourceView {
        match self {
            MessageSource::Cache(payload) => SourceView::Cache(payload@),
            MessageSource::Segment { file_number, line } => SourceView::Segment {
                file_number: *file_number as int,
                line: *line as int,
            },
        }
    }
}

struct StoredTopic {
    name: String,
    partitions: Vec<MessageAndTotalMessageCount>,
}

impl View for StoredTopic {
    type V = TopicLog;

    closed spec fn view(&self) -> TopicLog {
        TopicLog {
            name: self.name@,
            partitions: Seq::new(self.partitions.len() as nat, |p: int| self.partitions[p]@),
        }
    }
}

/// The in-memory side of the message store: per topic and partition, the
/// cache of messages not yet flushed and the counter of all messages. The
/// topics are kept in the order in which they were added and found by their
/// names, of which no two are the same; the partitions of a topic are found
/// by their index.
pub struct MessageStore {
    store: Vec<StoredTopic>,
}

spec fn logs(store: Vec<StoredTopic>) -> Seq<TopicLog> {
    Seq::new(store.len() as nat, |k: int| store[k]@)
}

impl View for MessageStore {
    type V = Seq<TopicLog>;

    closed spec fn view(&self) -> Seq<TopicLog> {
        logs(self.store)
    }
}

impl MessageStore {
    /// The store's invariant, over its view. It holds of every store at all
    /// times.
    #[verifier::type_invariant]
    pub open spec fn wf(&self) -> bool {
        store_ok(self@)
    }

    /// An empty store.
    pub fn new() -> (s: Self)
        ensures
            s@ == Seq::<TopicLog>::empty(),
    {
        Self { store: Vec::new() }
    }

    /// Takes the topics out for a change in several steps, leaving an empty
    /// store in their place until they are put back.
    fn take_apart(&mut self) -> (store: Vec<StoredTopic>)
        ensures
            store == old(self).store,
    {
        let mut store: Vec<StoredTopic> = Vec::new();
        std::mem::swap(&mut store, &mut self.store);
        store
    }

    fn find(&self, topic_name: &str) -> (found: Option<usize>)
        ensures
            store_ok(self@),
            match found {
                Some(k) => {
                    &&& k < self.store.len()
                    &&& has_topic(self@, topic_name@)
                    &&& k == topic_index(self@, topic_name@)
                },
                None => !has_topic(self@, topic_name@),
            },
    {
        proof {
            use_type_invariant(self);
        }
        let mut i: usize = 0;
        while i < self.store.len()
            invariant
                i <= self.store.len(),
                store_ok(self@),
                forall|k: int| 0 <= k < i ==> names_of(self@)[k] != topic_name@,
            decreases self.store.len() - i,
        {
            if same_text(self.store[i].name.as_str(), topic_name) {
                proof {
                    lemma_position_unique(names_of(self@), topic_name@, i as int);
                }
                return Some(i);
            }
            i += 1;
        }
        None
    }

    /// Adds a topic with one empty cache per partition; fewer than one
    /// partition counts as one. A known name changes nothing.
    pub fn add_topic(&mut self, topic_name: String, partitions: i32)
        ensures
            store_ok(final(self)@),
            final(self)@ == after_add_topic(old(self)@, topic_name@, partitions as int),
    {
        if self.find(topic_name.as_str()).is_some() {
            return ;
        }
        let partitions_count: i32 = if partitions < 1 {
            1
        } else {
            partitions
        };
        let mut partitions_list: Vec<MessageAndTotalMessageCount> = Vec::new();
        let mut i: i32 = 0;
        while i < partitions_count
            invariant
                0 <= i <= partitions_count,
                partitions_list.len() == i,
                forall|p: int|
                    0 <= p < i ==> (#[trigger] partitions_list[p])@ == (PartitionLog {
                        cache: Seq::empty(),
                        total: 0,
                    }),
            decreases partitions_count - i,
        {
            let fresh = MessageAndTotalMessageCount { messages: Vec::new(), total_messages: 0 };
            assert(fresh@.cache =~= Seq::<Seq<u8>>::empty());
            partitions_list.push(fresh);
            i += 1;
        }
        let ghost before = self@;
        let entry = StoredTopic { name: topic_name, partitions: partitions_list };
        assert(entry@.partitions =~= fresh_partitions(partitions_count as int));
        let mut store = self.take_apart();
        store.push(entry);
        proof {
            assert(logs(store) =~= before.push(entry@));
            assert(names_of(logs(store)) =~= names_of(before).push(topic_name@));
        }
        self.store = store;
    }

    /// Forgets a topic and all its partitions; an unknown name changes nothing.
    pub fn delete_topic(&mut self, topic_name: &str)
        ensures
            store_ok(final(self)@),
            final(self)@ == after_delete_topic(old(self)@, topic_name@),
    {
        let ghost before = self@;
        match self.find(topic_name) {
            Some(k) => {
                let mut store = self.take_apart();
                store.remove(k);
                proof {
                    assert(logs(store) =~= before.remove(k as int));
                    assert(names_of(logs(store)) =~= names_of(before).remove(k as int));
                }
                self.store = store;
            },
            None => {},
        }
    }

    /// Appends a message to the cache of a partition and counts it. Returns
    /// the new cache length and the new counter. An unknown topic or
    /// partition is not found, and a counter at its limit is exhausted;
    /// either way nothing changes.
    pub fn write_to_cache(&mut self, topic_name: &str, partition: i32, message: Vec<u8>) -> (r:
        Result<(i32, i32), BrokerError>)
        ensures
            store_ok(final(self)@),
            r == write_result(old(self)@, topic_name@, partition as int),
            final(self)@ == after_write(old(self)@, topic_name@, partition as int, message@),
    {
        let ghost before = self@;
        let k = match self.find(topic_name) {
            Some(k) => k,
            None => {
                return Err(BrokerError::NotFound);
            },
        };
        if partition < 0 || partition as usize >= self.store[k].partitions.len() {
            return Err(BrokerError::NotFound);
        }
        let p = partition as usize;
        if self.store[k].partitions[p].total_messages == i32::MAX {
            return Err(BrokerError::CounterExhausted);
        }
        let ghost log = self.store[k as int].partitions[p as int]@;
        let mut store = self.take_apart();
        store[k].partitions[p].messages.push(message);
        store[k].partitions[p].total_messages += 1;
        let cache_size = store[k].partitions[p].messages.len() as i32;
        let total_messages = store[k].partitions[p].total_messages;
        proof {
            let grown = PartitionLog { cache: log.cache.push(message@), total: log.total + 1 };
            assert(store[k as int].partitions[p as int]@.cache =~= grown.cache);
            assert(store[k as int]@.partitions =~= before[k as int].partitions.update(
                p as int,
                grown,
            ));
            assert(logs(store) =~= with_partition(before, topic_name@, partition as int, grown));
            assert(names_of(logs(store)) =~= names_of(before));
        }
        self.store = store;
        Ok((cache_size, total_messages))
    }

    /// Empties the cache of a partition and hands its messages out, oldest
    /// first. The counter stays. An unknown topic or partition is not found.
    pub fn clear_vec_and_return(&mut self, topic_name: &str, partition: i32) -> (r: Result<
        Vec<Vec<u8>>,
        BrokerError,
    >)
        ensures
            store_ok(final(self)@),
            final(self)@ == after_clear(old(self)@, topic_name@, partition as int),
            match r {
                Ok(batch) => has_partition(old(self)@, topic_name@, partition as int)
                    && crate::segment::payloads(&batch) == partition_of(
                    old(self)@,
                    topic_name@,
                    partition as int,
                ).cache,
                Err(e) => e == BrokerError::NotFound && !has_partition(
                    old(self)@,
                    topic_name@,
                    partition as int,
                ),
            },
    {
        let ghost before = self@;
        let k = match self.find(topic_name) {
            Some(k) => k,
            None => {
                return Err(BrokerError::NotFound);
            },
        };
        if partition < 0 || partition as usize >= self.store[k].partitions.len() {
            return Err(BrokerError::NotFound);
        }
        let p = partition as usize;
        let ghost log = self.store[k as int].partitions[p as int]@;
        assert(partition_ok(before[k as int].partitions[p as int]));
        let mut store = self.take_apart();
        let mut batch: Vec<Vec<u8>> = Vec::new();
        std::mem::swap(&mut store[k].partitions[p].messages, &mut batch);
        proof {
            let cleared = PartitionLog { cache: Seq::empty(), total: log.total };
            assert(store[k as int].partitions[p as int]@.cache =~= cleared.cache);
            assert(store[k as int]@.partitions =~= before[k as int].partitions.update(
                p as int,
                cleared,
            ));
            assert(logs(store) =~= with_partition(before, topic_name@, partition as int, cleared));
            assert(names_of(logs(store)) =~= names_of(before));
        }
        self.store = store;
        Ok(batch)
    }

    /// Says where the message at `offset` of a partition is to be had: its
    /// payload where the cache still holds it, else the segment file and line
    /// to read. An unknown topic or partition is not found, and an offset at
    /// or past the partition's counter is out of range.
    pub fn get_message_by_offset(&self, partition: &i32, topic: &str, offset: i32) -> (r: Result<
        MessageSource,
        BrokerError,
    >)
        ensures
            match r {
                Ok(source) => locate(self@, topic@, *partition as int, offset as int) == Ok::<
                    SourceView,
                    BrokerError,
                >(source@),
                Err(e) => locate(self@, topic@, *partition as int, offset as int) == Err::<
                    SourceView,
                    BrokerError,
                >(e),
            },
    {
        let k = match self.find(topic) {
            Some(k) => k,
            None => {
                return Err(BrokerError::NotFound);
            },
        };
        if *partition < 0 || *partition as usize >= self.store[k].partitions.len() {
            return Err(BrokerError::NotFound);
        }
        let p = *partition as usize;
        let log = &self.store[k].partitions[p];
        let total_messages = log.total_messages;
        if total_messages <= offset {
            return Err(BrokerError::OutOfRange);
        }
        let cache_start_offset = segment_number(total_messages);
        if offset >= cache_start_offset {
            let index = (offset % FLUSH_THRESHOLD) as usize;
            if index < log.messages.len() {
                let message = log.messages[index].clone();
                Ok(MessageSource::Cache(message))
            } else {
                Err(BrokerError::NotFound)
            }
        } else {
            Ok(MessageSource::Segment { file_number: segment_number(offset), line: offset })
        }
    }

    /// Checks an offset against the partition's counter and, where it is
    /// below it, gives the bytes that the partition's offset file is to hold.
    /// An unknown topic or partition is not found, and an offset at or past
    /// the counter is out of range.
    pub fn commit_offset(&self, partition: &i32, topic: &str, offset: i32) -> (r: Result<
        Vec<u8>,
        BrokerError,
    >)
        ensures
            match r {
                Ok(bytes) => commit_result(self@, topic@, *partition as int, offset as int) == Ok::<
                    Seq<u8>,
                    BrokerError,
                >(bytes@),
                Err(e) => commit_result(self@, topic@, *partition as int, offset as int) == Err::<
                    Seq<u8>,
                    BrokerError,
                >(e),
            },
    {
        let k = match self.find(topic) {
            Some(k) => k,
            None => {
                return Err(BrokerError::NotFound);
            },
        };
        if *partition < 0 || *partition as usize >= self.store[k].partitions.len() {
            return Err(BrokerError::NotFound);
        }
        let p = *partition as usize;
        let total_messages = self.store[k].partitions[p].total_messages;
        if total_messages <= offset {
            return Err(BrokerError::OutOfRange);
        }
        Ok(encode_offset(offset))
    }

    /// The count of all messages that a partition ever took.
    pub fn total_messages(&self, topic: &str, partition: i32) -> (total: Option<i32>)
        ensures
            total == if has_partition(self@, topic@, partition as int) {
                Some(partition_of(self@, topic@, partition as int).total as i32)
            } else {
                None
            },
    {
        let k = match self.find(topic) {
            Some(k) => k,
            None => {
                return None;
            },
        };
        if partition < 0 || partition as usize >= self.store[k].partitions.len() {
            return None;
        }
        let p = partition as usize;
        Some(self.store[k].partitions[p].total_messages)
    }

    /// The number of messages that wait in the cache of a partition.
    pub fn cached_messages(&self, topic: &str, partition: i32) -> (cached: Option<usize>)
        ensures
            cached == if has_partition(self@, topic@, partition as int) {
                Some(partition_of(self@, topic@, partition as int).cache.len() as usize)
            } else {
                None
            },
    {
        let k = match self.find(topic) {
            Some(k) => k,
            None => {
                return None;
            },
        };
        if partition < 0 || partition as usize >= self.store[k].partitions.len() {
            return None;
        }
        let p = partition as usize;
        Some(self.store[k].partitions[p].messages.len())
    }
}

} // verus!
