//! The requests of a producer.

use vstd::prelude::*;

verus! {

/// A request of a producer.
#[derive(Debug)]
pub struct ProducerMessage {
    pub message: Message,
}

#[derive(Debug)]
pub enum Message {
    CREATETOPIC(CreateTopic),
    DELETETOPIC(DeleteTopic),
    MESSAGETOPIC(MessageTopic),
}

#[derive(Debug)]
pub struct CreateTopic {
    pub topic_name: String,
    pub partitions: i32,
}

#[derive(Debug)]
pub struct DeleteTopic {
    pub topic_name: String,
}

#[derive(Debug)]
pub struct MessageTopic {
    pub key: Option<String>,
    pub topic_name: String,
    pub data: Vec<u8>,
}

} // verus!
