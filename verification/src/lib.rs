//! A single-node publish/subscribe message broker core.
//!
//! The crate holds the broker's state machine: the topic registry, the
//! per-partition message store with its flush policy, the segment and offset
//! file formats, the consumer-group assignment rules and the producer and
//! consumer session steps. Sockets, files and the shared lock live with the
//! embedding program; the functions here take and return plain values.

pub mod consumer;
pub mod consumer_group;
pub mod errors;
pub mod hashing;
pub mod helper;
pub mod init_struct;
pub mod message_for_consumer;
pub mod message_for_producer;
pub mod message_to_client;
pub mod offset_store;
pub mod producer;
pub mod segment;
pub mod session;
pub mod store;
pub mod text;
pub mod topic_laws;
pub mod topic_model;
pub mod topic_state;
