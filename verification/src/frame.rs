//! The message model: the tagged variants that travel inside a frame.

use vstd::prelude::*;

verus! {

/// One protocol unit: the body of a frame is the JSON encoding of a `Frame`,
/// an object with the single field `message`.
#[derive(Clone, Debug)]
pub struct Frame {
    pub message: Message,
}

/// The decoded payload of a frame: either a connection-level or a
/// session-level event.
#[derive(Clone, Debug)]
pub enum Message {
    Connection(Connection),
    Session(Session),
}

/// Connection-level events. `End` asks to terminate the TCP connection.
#[derive(Clone, Copy, Debug, PartialEq, Eq, Structural)]
pub enum Connection {
    End,
}

/// Session-level events: end a session, request a pairing, confirm a pairing,
/// or carry one relayed string value.
#[derive(Clone, Debug)]
pub enum Session {
    End,
    Request,
    Success,
    Value(String),
}

/// Structural sameness of two session events; `Value` payloads are compared
/// by their character sequences.
pub open spec fn session_sim(a: Session, b: Session) -> bool {
    match (a, b) {
        (Session::End, Session::End) => true,
        (Session::Request, Session::Request) => true,
        (Session::Success, Session::Success) => true,
        (Session::Value(u), Session::Value(v)) => u@ == v@,
        _ => false,
    }
}

/// Structural sameness of two messages; `Value` payloads are compared by
/// their character sequences.
pub open spec fn message_sim(a: Message, b: Message) -> bool {
    match (a, b) {
        (Message::Connection(x), Message::Connection(y)) => x == y,
        (Message::Session(x), Message::Session(y)) => session_sim(x, y),
        _ => false,
    }
}

impl PartialEq for Session {
    fn eq(&self, other: &Session) -> (r: bool) {
        match (self, other) {
            (Session::End, Session::End) => true,
            (Session::Request, Session::Request) => true,
            (Session::Success, Session::Success) => true,
            (Session::Value(u), Session::Value(v)) => *u == *v,
            _ => false,
        }
    }
}

impl vstd::std_specs::cmp::PartialEqSpecImpl for Session {
    open spec fn obeys_eq_spec() -> bool {
        true
    }

    open spec fn eq_spec(&self, other: &Session) -> bool {
        session_sim(*self, *other)
    }
}

impl PartialEq for Message {
    fn eq(&self, other: &Message) -> (r: bool) {
        match (self, other) {
            (Message::Connection(x), Message::Connection(y)) => x == y,
            (Message::Session(x), Message::Session(y)) => x == y,
            _ => false,
        }
    }
}

impl vstd::std_specs::cmp::PartialEqSpecImpl for Message {
    open spec fn obeys_eq_spec() -> bool {
        true
    }

    open spec fn eq_spec(&self, other: &Message) -> bool {
        message_sim(*self, *other)
    }
}

impl PartialEq for Frame {
    fn eq(&self, other: &Frame) -> (r: bool) {
        self.message == other.message
    }
}

impl vstd::std_specs::cmp::PartialEqSpecImpl for Frame {
    open spec fn obeys_eq_spec() -> bool {
        true
    }

    open spec fn eq_spec(&self, other: &Frame) -> bool {
        message_sim(self.message, other.message)
    }
}

} // verus!
