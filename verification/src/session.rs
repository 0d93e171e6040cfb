//! What a session hands to the program that runs it: the answer to send, or
//! the work on disk that comes before the answer.

use crate::errors::BrokerError;
use crate::message_to_client::{Failure, Response, ResponseView, Success};
use vstd::prelude::*;

verus! {

/// Work on disk, as the contracts see it.
pub enum DiskWorkView {
    CreateTopic { topic_name: Seq<char>, partitions: int },
    DeleteTopic { topic_name: Seq<char> },
    WriteSegment { topic_name: Seq<char>, partition: int, file_number: int, content: Seq<u8> },
    WriteOffset { topic_name: Seq<char>, partition: int, content: Seq<u8> },
}

/// What a session does next, as the contracts see it.
pub enum StepView {
    Close,
    Respond(ResponseView),
    Persist(DiskWorkView),
    Fetch { topic_name: Seq<char>, partition: int, file_number: int, line: int },
}

/// The outcome of one request, as the contracts see it.
pub struct TurnView {
    pub step: StepView,
    pub ends_session: bool,
}

/// Work that a request leaves to do on disk.
#[derive(Debug)]
pub enum DiskWork {
    /// Create the directory of the topic and one directory per partition,
    /// named `0` up to `partitions - 1`.
    CreateTopic { topic_name: String, partitions: i32 },
    /// Remove the directory of the topic with all that it holds.
    DeleteTopic { topic_name: String },
    /// Write `content` to the segment file `file_number` of the partition,
    /// replacing a file of that name.
    WriteSegment { topic_name: String, partition: i32, file_number: i32, content: Vec<u8> },
    /// Write `content` to the offset file of the partition, replacing what it
    /// held.
    WriteOffset { topic_name: String, partition: i32, content: Vec<u8> },
}

impl View for DiskWork {
    type V = DiskWorkView;

    open spec fn view(&self) -> DiskWorkView {
        match self {
            DiskWork::CreateTopic { topic_name, partitions } => DiskWorkView::CreateTopic {
                topic_name: topic_name@,
                partitions: *partitions as int,
            },
            DiskWork::DeleteTopic { topic_name } => DiskWorkView::DeleteTopic {
                topic_name: topic_name@,
            },
            DiskWork::WriteSegment {
                topic_name,
                partition,
                file_number,
                content,
            } => DiskWorkView::WriteSegment {
                topic_name: topic_name@,
                partition: *partition as int,
                file_number: *file_number as int,
                content: content@,
            },
            DiskWork::WriteOffset { topic_name, partition, content } => DiskWorkView::WriteOffset {
                topic_name: topic_name@,
                partition: *partition as int,
                content: content@,
            },
        }
    }
}

/// What a session reads from its connection.
#[derive(Debug)]
pub enum Incoming<M> {
    /// Nothing more: the peer closed the connection, or it broke.
    Closed,
    /// A frame that could not be read as a request.
    Unreadable,
    /// A request.
    Request(M),
}

/// What a session does next on what it read.
#[derive(Debug)]
pub enum Step {
    /// Send nothing: the peer is gone.
    Close,
    /// Send the response.
    Respond(Response),
    /// Do the work on disk, then send `Success`, or `Failure` where the work
    /// failed.
    Persist(DiskWork),
    /// Read the segment file `file_number` of the partition, then send the
    /// line `line` of it as an `OffsetMessage`, or `Failure` where the file
    /// cannot be read.
    Fetch { topic_name: String, partition: i32, file_number: i32, line: i32 },
}

impl View for Step {
    type V = StepView;

    open spec fn view(&self) -> StepView {
        match self {
            Step::Close => StepView::Close,
            Step::Respond(response) => StepView::Respond(response@),
            Step::Persist(work) => StepView::Persist(work@),
            Step::Fetch { topic_name, partition, file_number, line } => StepView::Fetch {
                topic_name: topic_name@,
                partition: *partition as int,
                file_number: *file_number as int,
                line: *line as int,
            },
        }
    }
}

/// The outcome of one read: what to do next, and whether the session ends
/// once that is done.
#[derive(Debug)]
pub struct Turn {
    pub step: Step,
    pub ends_session: bool,
}

impl View for Turn {
    type V = TurnView;

    open spec fn view(&self) -> TurnView {
        TurnView { step: self.step@, ends_session: self.ends_session }
    }
}

/// The answer to a request that ended in `outcome`: `Success` where it was
/// carried out, `Failure` for every refusal.
pub open spec fn answer_of(outcome: Result<(), BrokerError>) -> ResponseView {
    match outcome {
        Ok(_) => ResponseView::Success,
        Err(_) => ResponseView::Failure,
    }
}

/// Turns the outcome of a request, or of the work on disk that the request
/// left to do, into the answer to send.
pub fn answer_to(outcome: Result<(), BrokerError>) -> (response: Response)
    ensures
        response@ == answer_of(outcome),
{
    match outcome {
        Ok(_) => Response::Success(Success::new()),
        Err(_) => Response::Failure(Failure::new()),
    }
}

} // verus!
