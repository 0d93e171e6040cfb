//! The answers of the broker, and the frames that carry every message.

use vstd::prelude::*;

verus! {

/// The answer to a request that was carried out.
#[derive(Debug)]
pub struct Success {}

impl Success {
    pub fn new() -> Self {
        Self {  }
    }
}

/// The answer to a request that was refused or could not be read.
#[derive(Debug)]
pub struct Failure {}

impl Failure {
    pub fn new() -> Self {
        Self {  }
    }
}

/// The answer to a fetch: the payload of the message.
#[derive(Debug)]
pub struct OffsetMessage {
    pub message: Vec<u8>,
}

impl OffsetMessage {
    pub fn new(msg: Vec<u8>) -> (answer: Self)
        ensures
            answer.message == msg,
    {
        Self { message: msg }
    }
}

/// An answer, as the contracts see it.
pub enum ResponseView {
    Success,
    Failure,
    OffsetMessage(Seq<u8>),
}

/// One of the three answers that a session sends.
#[derive(Debug)]
pub enum Response {
    Success(Success),
    Failure(Failure),
    OffsetMessage(OffsetMessage),
}

impl View for Response {
    type V = ResponseView;

    open spec fn view(&self) -> ResponseView {
        match self {
            Response::Success(_) => ResponseView::Success,
            Response::Failure(_) => ResponseView::Failure,
            Response::OffsetMessage(answer) => ResponseView::OffsetMessage(answer.message@),
        }
    }
}

/// The byte that ends every frame.
pub const FRAME_END: u8 = 0;

/// A frame: the serialized message followed by one NUL byte.
pub open spec fn framed(payload: Seq<u8>) -> Seq<u8> {
    payload.push(FRAME_END)
}

/// The serialized message of a frame, if the frame ends with the NUL byte.
pub open spec fn unframed(frame: Seq<u8>) -> Option<Seq<u8>> {
    if frame.len() > 0 && frame.last() == FRAME_END {
        Some(frame.drop_last())
    } else {
        None
    }
}

/// Ends a serialized message with the NUL byte.
pub fn frame(payload: Vec<u8>) -> (out: Vec<u8>)
    ensures
        out@ == framed(payload@),
{
    let mut out = payload;
    out.push(FRAME_END);
    out
}

/// Strips the NUL byte from the end of a frame; `None` where the bytes do not
/// end with it, as when the peer closed in the middle of a message.
pub fn payload_of_frame(frame: &[u8]) -> (payload: Option<&[u8]>)
    ensures
        match payload {
            Some(bytes) => unframed(frame@) == Some(bytes@),
            None => unframed(frame@).is_none(),
        },
{
    let n = frame.len();
    if n > 0 && frame[n - 1] == FRAME_END {
        Some(vstd::slice::slice_subrange(frame, 0, n - 1))
    } else {
        None
    }
}

/// A frame gives back the message it was made from.
pub proof fn lemma_frame_round_trip(payload: Seq<u8>)
    ensures
        unframed(framed(payload)) == Some(payload),
{
}

} // verus!
