//! The handshake that opens a connection.

use vstd::prelude::*;

verus! {

/// The side of the protocol that a connection takes.
#[derive(Clone, Copy, Debug, PartialEq, Eq, Structural)]
pub enum Role {
    Producer,
    Consumer,
}

/// The role that a handshake code selects: 0 a producer, 1 a consumer, any
/// other code none.
pub open spec fn role_of(code: int) -> Option<Role> {
    if code == 0 {
        Some(Role::Producer)
    } else if code == 1 {
        Some(Role::Consumer)
    } else {
        None
    }
}

/// The first frame of a connection.
#[derive(Debug)]
pub struct InitProducerConsumer {
    pub message: i32,
}

impl InitProducerConsumer {
    /// The role that the handshake asks for, if its code names one.
    pub fn role(&self) -> (role: Option<Role>)
        ensures
            role == role_of(self.message as int),
    {
        if self.message == 0 {
            Some(Role::Producer)
        } else if self.message == 1 {
            Some(Role::Consumer)
        } else {
            None
        }
    }
}

/// How a connection is opened.
#[derive(Clone, Copy, Debug, PartialEq, Eq, Structural)]
pub enum Opening {
    /// The first frame is no handshake, or its code names no role: close the
    /// connection without an answer.
    Refuse,
    /// Answer `Success` and run the session of this role.
    Accept(Role),
}

/// How a connection is opened on its first frame; `None` stands for a frame
/// that could not be read as a handshake.
pub open spec fn opening_of(first: Option<InitProducerConsumer>) -> Opening {
    match first {
        None => Opening::Refuse,
        Some(handshake) => match role_of(handshake.message as int) {
            Some(role) => Opening::Accept(role),
            None => Opening::Refuse,
        },
    }
}

/// Decides how a connection is opened on its first frame.
pub fn open_connection(first: Option<InitProducerConsumer>) -> (opening: Opening)
    ensures
        opening == opening_of(first),
{
    match first {
        None => Opening::Refuse,
        Some(handshake) => match handshake.role() {
            Some(role) => Opening::Accept(role),
            None => Opening::Refuse,
        },
    }
}

} // verus!
