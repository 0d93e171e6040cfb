//! The consumer session: one request in, one step out.

use crate::errors::BrokerError;
use crate::helper::{is_session_id, Helper};
use crate::message_for_consumer::{
    CommitOffset, ConsumerMessage, GetOffsetMessage, JoinConsumer, LeaveConsumer, Message,
};
use crate::message_to_client::{OffsetMessage, Response, ResponseView};
use crate::segment::{read_line, segment_line};
use crate::session::{
    answer_of, answer_to, DiskWork, DiskWorkView, Incoming, Step, StepView, Turn, TurnView,
};
use crate::store::{commit_result, locate, MessageSource, SourceView};
use crate::topic_model::{
    after_disconnect, after_join, after_leave, join_result, joined_somewhere, leave_result,
    logs_of, registry_ok, TopicView,
};
use crate::topic_state::Topic;
use vstd::prelude::*;

verus! {

/// How a fetch is answered: from the cache where the message is still
/// there, by a line of a segment file where it was flushed, and with
/// `Failure` where the registry refuses the offset.
pub open spec fn fetch_step(v: Seq<TopicView>, get: GetOffsetMessage) -> StepView {
    match locate(logs_of(v), get.topic_name@, get.partition as int, get.offset as int) {
        Ok(SourceView::Cache(payload)) => StepView::Respond(ResponseView::OffsetMessage(payload)),
        Ok(SourceView::Segment { file_number, line }) => StepView::Fetch {
            topic_name: get.topic_name@,
            partition: get.partition as int,
            file_number,
            line,
        },
        Err(_) => StepView::Respond(ResponseView::Failure),
    }
}

/// What a consumer session does on what it read. A closed connection gets no
/// answer, and an unreadable frame gets `Failure`. A join and a leave are
/// answered by what the registry says of them. A commit that the registry
/// accepts leaves the offset file to write.
pub open spec fn consumer_step(
    v: Seq<TopicView>,
    id: Seq<char>,
    request: Incoming<ConsumerMessage>,
) -> StepView {
    match request {
        Incoming::Closed => StepView::Close,
        Incoming::Unreadable => StepView::Respond(ResponseView::Failure),
        Incoming::Request(frame) => match frame.message {
            Message::JOINCONSUMER(join) => StepView::Respond(
                answer_of(join_result(v, join.topic_name@)),
            ),
            Message::LEAVECONSUMER(leave) => StepView::Respond(
                answer_of(leave_result(v, id, leave.topic_name@)),
            ),
            Message::GETOFFSETMESSAGE(get) => fetch_step(v, get),
            Message::COMMITOFFSET(commit) => match commit_result(
                logs_of(v),
                commit.topic_name@,
                commit.partition as int,
                commit.offset as int,
            ) {
                Ok(content) => StepView::Persist(
                    DiskWorkView::WriteOffset {
                        topic_name: commit.topic_name@,
                        partition: commit.partition as int,
                        content,
                    },
                ),
                Err(_) => StepView::Respond(ResponseView::Failure),
            },
        },
    }
}

/// Whether the session ends on what it read: a closed connection ends it,
/// and so does a leave, accepted or not.
pub open spec fn ends_session(request: Incoming<ConsumerMessage>) -> bool {
    match request {
        Incoming::Closed => true,
        Incoming::Request(ConsumerMessage { message: Message::LEAVECONSUMER(_) }) => true,
        _ => false,
    }
}

/// The registry after a consumer session read from its connection. A join
/// and a leave change the group of their topic. A closed connection takes the
/// session out of every group that holds it. Nothing else changes the
/// registry.
pub open spec fn consumer_next(
    v: Seq<TopicView>,
    id: Seq<char>,
    request: Incoming<ConsumerMessage>,
) -> Seq<TopicView> {
    match request {
        Incoming::Closed => after_disconnect(v, id),
        Incoming::Request(ConsumerMessage { message: Message::JOINCONSUMER(join) }) => after_join(
            v,
            id,
            join.topic_name@,
        ),
        Incoming::Request(
            ConsumerMessage { message: Message::LEAVECONSUMER(leave) },
        ) => after_leave(v, id, leave.topic_name@),
        _ => v,
    }
}

/// The session of one consumer connection: one member of a group, under one
/// id for as long as the connection lasts.
pub struct Consumer {
    pub id: String,
    pub helper: Helper,
}

impl Consumer {
    /// A session with a fresh id.
    pub fn new() -> (session: Self)
        ensures
            is_session_id(session.id@),
    {
        let helper = Helper::new();
        Self { id: helper.generate_unique_id(), helper }
    }

    /// Carries out what the session read against the registry and says what
    /// to do next. On a closed connection the session leaves every group
    /// that holds it, as often as it had joined; nothing is sent, and the
    /// session ends. A fetch and a commit are open to every session, member of
    /// the group or not.
    pub fn handler(&self, topics: &mut Topic, request: Incoming<ConsumerMessage>) -> (turn: Turn)
        ensures
            registry_ok(final(topics)@),
            final(topics)@ == consumer_next(old(topics)@, self.id@, request),
            turn@ == (TurnView {
                step: consumer_step(old(topics)@, self.id@, request),
                ends_session: ends_session(request),
            }),
            request is Closed ==> !joined_somewhere(final(topics)@, self.id@),
    {
        proof {
            use_type_invariant(&*topics);
        }
        let frame = match request {
            Incoming::Closed => {
                topics.disconnect_user(self.id.as_str());
                return Turn { step: Step::Close, ends_session: true };
            },
            Incoming::Unreadable => {
                return Turn {
                    step: Step::Respond(answer_to(Err(BrokerError::ProtocolError))),
                    ends_session: false,
                };
            },
            Incoming::Request(frame) => frame,
        };
        match frame.message {
            Message::JOINCONSUMER(JoinConsumer { topic_name }) => {
                let joined = topics.add_consumer(self.id.as_str(), topic_name.as_str());
                Turn { step: Step::Respond(answer_to(joined)), ends_session: false }
            },
            Message::LEAVECONSUMER(LeaveConsumer { topic_name }) => {
                let left = topics.leave_consumer(self.id.as_str(), topic_name.as_str());
                Turn { step: Step::Respond(answer_to(left)), ends_session: true }
            },
            Message::GETOFFSETMESSAGE(get) => Turn {
                step: self.fetch(topics, get),
                ends_session: false,
            },
            Message::COMMITOFFSET(CommitOffset { topic_name, partition, offset }) => {
                let step = match topics.commit_offset(topic_name.as_str(), &partition, offset) {
                    Ok(content) => Step::Persist(
                        DiskWork::WriteOffset { topic_name, partition, content },
                    ),
                    Err(e) => Step::Respond(answer_to(Err(e))),
                };
                Turn { step, ends_session: false }
            },
        }
    }

    /// Answers a fetch. It only reads the registry, so a shared hold on the
    /// registry is enough for it. Any session may fetch from any partition:
    /// it is not asked whether the consumer has joined the topic, nor whether
    /// the partition is one of its own.
    pub fn fetch(&self, topics: &Topic, get: GetOffsetMessage) -> (step: Step)
        ensures
            step@ == fetch_step(topics@, get),
    {
        let GetOffsetMessage { topic_name, partition, offset } = get;
        let source = topics.read_message_from_topic_and_partition(
            topic_name.as_str(),
            &partition,
            offset,
        );
        match source {
            Ok(MessageSource::Cache(payload)) => Step::Respond(
                Response::OffsetMessage(OffsetMessage::new(payload)),
            ),
            Ok(MessageSource::Segment { file_number, line }) => Step::Fetch {
                topic_name,
                partition,
                file_number,
                line,
            },
            Err(e) => Step::Respond(answer_to(Err(e))),
        }
    }

    /// The answer to a fetch that was referred to a segment file: the line
    /// asked for, out of the content of the file.
    pub fn segment_response(content: &[u8], line: i32) -> (response: Response)
        ensures
            response@ == ResponseView::OffsetMessage(segment_line(content@, line as int)),
    {
        Response::OffsetMessage(OffsetMessage::new(read_line(content, line)))
    }
}

} // verus!
