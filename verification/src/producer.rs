//! The producer session: one request in, one step out.

use crate::helper::{is_session_id, Helper};
use crate::message_for_producer::{CreateTopic, DeleteTopic, Message, MessageTopic, ProducerMessage};
use crate::errors::BrokerError;
use crate::message_to_client::ResponseView;
use crate::session::{
    answer_to, DiskWork, DiskWorkView, Incoming, Step, StepView, Turn, TurnView,
};
use crate::store::effective_partitions;
use crate::topic_model::{
    after_create, after_publish, after_remove, knows, publish_result, registry_ok, TopicView,
};
use crate::topic_state::{key_of, Topic};
use vstd::prelude::*;

verus! {

/// What a producer session does on what it read. A closed connection gets no
/// answer, and an unreadable frame gets `Failure`. Creating and deleting
/// always succeed;
/// they leave work on disk only where the registry changed. A publish fails
/// where the registry refuses it, and leaves a segment to write where it
/// completed a batch.
pub open spec fn producer_step(
    v: Seq<TopicView>,
    request: Incoming<ProducerMessage>,
) -> StepView {
    match request {
        Incoming::Closed => StepView::Close,
        Incoming::Unreadable => StepView::Respond(ResponseView::Failure),
        Incoming::Request(frame) => match frame.message {
            Message::CREATETOPIC(create) => if knows(v, create.topic_name@) {
                StepView::Respond(ResponseView::Success)
            } else {
                StepView::Persist(
                    DiskWorkView::CreateTopic {
                        topic_name: create.topic_name@,
                        partitions: effective_partitions(create.partitions as int),
                    },
                )
            },
            Message::DELETETOPIC(delete) => if knows(v, delete.topic_name@) {
                StepView::Persist(DiskWorkView::DeleteTopic { topic_name: delete.topic_name@ })
            } else {
                StepView::Respond(ResponseView::Success)
            },
            Message::MESSAGETOPIC(publish) => match publish_result(
                v,
                key_of(publish.key),
                publish.data@,
                publish.topic_name@,
            ) {
                Err(_) => StepView::Respond(ResponseView::Failure),
                Ok(published) => match published.flush {
                    Some(segment) => StepView::Persist(
                        DiskWorkView::WriteSegment {
                            topic_name: publish.topic_name@,
                            partition: published.partition,
                            file_number: segment.file_number,
                            content: segment.content,
                        },
                    ),
                    None => StepView::Respond(ResponseView::Success),
                },
            },
        },
    }
}

/// The registry after a producer's request. A producer holds nothing in the
/// registry, so a closed connection leaves it as it is.
pub open spec fn producer_next(v: Seq<TopicView>, request: Incoming<ProducerMessage>) -> Seq<
    TopicView,
> {
    match request {
        Incoming::Closed => v,
        Incoming::Unreadable => v,
        Incoming::Request(frame) => match frame.message {
            Message::CREATETOPIC(create) => after_create(
                v,
                create.topic_name@,
                create.partitions as int,
            ),
            Message::DELETETOPIC(delete) => after_remove(v, delete.topic_name@),
            Message::MESSAGETOPIC(publish) => after_publish(
                v,
                key_of(publish.key),
                publish.data@,
                publish.topic_name@,
            ),
        },
    }
}

/// The session of one producer connection.
pub struct Producer {
    pub id: String,
    pub helper: Helper,
}

impl Producer {
    /// A session with a fresh id.
    pub fn new() -> (session: Self)
        ensures
            is_session_id(session.id@),
    {
        let helper = Helper::new();
        Self { id: helper.generate_unique_id(), helper }
    }

    /// Carries out one request against the registry and says how to answer
    /// it. A producer's session ends when its connection is closed, and
    /// never on a request.
    pub fn handler(&self, topics: &mut Topic, request: Incoming<ProducerMessage>) -> (turn: Turn)
        ensures
            registry_ok(final(topics)@),
            final(topics)@ == producer_next(old(topics)@, request),
            turn@ == (TurnView {
                step: producer_step(old(topics)@, request),
                ends_session: request is Closed,
            }),
    {
        proof {
            use_type_invariant(&*topics);
        }
        let step = match request {
            Incoming::Closed => {
                return Turn { step: Step::Close, ends_session: true };
            },
            Incoming::Unreadable => Step::Respond(answer_to(Err(BrokerError::ProtocolError))),
            Incoming::Request(frame) => match frame.message {
                Message::CREATETOPIC(CreateTopic { topic_name, partitions }) => {
                    let name = topic_name.clone();
                    match topics.add_topic(topic_name, partitions) {
                        Some(count) => Step::Persist(
                            DiskWork::CreateTopic { topic_name: name, partitions: count },
                        ),
                        None => Step::Respond(answer_to(Ok(()))),
                    }
                },
                Message::DELETETOPIC(DeleteTopic { topic_name }) => {
                    if topics.delete_topic(topic_name.as_str()) {
                        Step::Persist(DiskWork::DeleteTopic { topic_name })
                    } else {
                        Step::Respond(answer_to(Ok(())))
                    }
                },
                Message::MESSAGETOPIC(MessageTopic { key, topic_name, data }) => {
                    let name = topic_name.clone();
                    match topics.send_message(key, data, topic_name) {
                        Err(e) => Step::Respond(answer_to(Err(e))),
                        Ok(published) => match published.flush {
                            Some(segment) => Step::Persist(
                                DiskWork::WriteSegment {
                                    topic_name: name,
                                    partition: published.partition,
                                    file_number: segment.file_number,
                                    content: segment.content,
                                },
                            ),
                            None => Step::Respond(answer_to(Ok(()))),
                        },
                    }
                },
            },
        };
        Turn { step, ends_session: false }
    }
}

} // verus!
