//! The requests of a consumer.

use vstd::prelude::*;

verus! {

/// A request of a consumer.
#[derive(Debug)]
pub struct ConsumerMessage {
    pub message: Message,
}

#[derive(Debug)]
pub enum Message {
    JOINCONSUMER(JoinConsumer),
    LEAVECONSUMER(LeaveConsumer),
    GETOFFSETMESSAGE(GetOffsetMessage),
    COMMITOFFSET(CommitOffset),
}

#[derive(Debug)]
pub struct JoinConsumer {
    pub topic_name: String,
}

#[derive(Debug)]
pub struct LeaveConsumer {
    pub topic_name: String,
}

#[derive(Debug)]
pub struct GetOffsetMessage {
    pub topic_name: String,
    pub partition: i32,
    pub offset: i32,
}

#[derive(Debug)]
pub struct CommitOffset {
    pub topic_name: String,
    pub partition: i32,
    pub offset: i32,
}

} // verus!
