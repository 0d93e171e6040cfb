//! The refusals of the broker.

use vstd::prelude::*;

verus! {

/// Why a request is refused. Every refusal is answered with `Failure`.
#[derive(Clone, Copy, Debug, PartialEq, Eq, Structural)]
pub enum BrokerError {
    /// A frame could not be read as a request.
    ProtocolError,
    /// The topic, partition, member or cached message asked for does not exist.
    NotFound,
    /// An offset at or beyond the partition's message count.
    OutOfRange,
    /// The topic already has as many consumers as partitions.
    GroupFull,
    /// Work on a segment or offset file failed.
    IOFailure,
    /// The partition's message counter cannot grow any further.
    CounterExhausted,
}

} // verus!
