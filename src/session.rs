//! The decisions of one echo session on a stream connection.
//!
//! A session waits for a message and sends it back. In single-shot mode one
//! message is echoed and the session ends; in the multi-message mode every
//! message is echoed until an empty one arrives.

use vstd::prelude::*;
use vstd::utf8::valid_utf8;
use crate::framing::{decode_message, encode_message, frame};

verus! {

/// How many messages a session echoes.
#[derive(Debug, PartialEq, Eq, Structural, Clone, Copy)]
pub enum EchoMode {
    /// Echo one message, then close.
    SingleShot,
    /// Echo each message until an empty one arrives.
    UntilEmptyLine,
}

/// Where a session stands.
#[derive(Debug, PartialEq, Eq, Structural, Clone, Copy)]
pub enum SessionState {
    /// Waiting for the peer's next message.
    AwaitingMessage,
    /// Over: the connection is to be closed.
    Closed,
}

/// Why a session ended.
#[derive(Debug, PartialEq, Eq, Structural, Clone, Copy)]
pub enum SessionEnd {
    /// The single message was echoed.
    Echoed,
    /// An empty message ended a multi-message session.
    EmptyLine,
    /// The peer closed the connection.
    PeerClosed,
    /// The message was not valid text.
    InvalidText,
    /// Reading or writing the connection failed.
    TransportError,
}

/// What happened on the connection.
#[derive(Debug)]
pub enum SessionEvent {
    /// A whole message arrived, its delimiter removed.
    Message(Vec<u8>),
    /// The peer closed the connection cleanly.
    PeerClosed,
    /// The transport reported an error.
    TransportError,
}

/// What the connection's owner is to do.
#[derive(Debug)]
pub enum SessionAction {
    /// Write these bytes and flush, then wait for the next message.
    Reply(Vec<u8>),
    /// Write these bytes and flush, then close.
    ReplyAndClose(Vec<u8>),
    /// Close the connection.
    Close(SessionEnd),
}

/// One echo session.
pub struct EchoSession {
    pub mode: EchoMode,
    pub state: SessionState,
}

impl EchoSession {
    /// A session that waits for its first message.
    pub fn new(mode: EchoMode) -> (r: EchoSession)
        ensures
            r.mode == mode,
            r.state == SessionState::AwaitingMessage,
    {
        EchoSession { mode, state: SessionState::AwaitingMessage }
    }

    /// Whether the session still waits for a message.
    pub fn is_open(&self) -> (r: bool)
        ensures
            r == (self.state == SessionState::AwaitingMessage),
    {
        self.state == SessionState::AwaitingMessage
    }

    /// Decides what to do about one event: a valid message is echoed as the
    /// same bytes framed again; an invalid one, the peer's close or a
    /// transport error end the session.
    pub fn on_event(&mut self, event: SessionEvent) -> (r: SessionAction)
        requires
            old(self).state == SessionState::AwaitingMessage,
            event matches SessionEvent::Message(m) ==> m@.len() < usize::MAX,
        ensures
            final(self).mode == old(self).mode,
            match event {
                SessionEvent::Message(m) => if !valid_utf8(m@) {
                    &&& r == SessionAction::Close(SessionEnd::InvalidText)
                    &&& final(self).state == SessionState::Closed
                } else if old(self).mode == EchoMode::SingleShot {
                    &&& r matches SessionAction::ReplyAndClose(b)
                    &&& b@ == frame(m@)
                    &&& final(self).state == SessionState::Closed
                } else if m@.len() == 0 {
                    &&& r == SessionAction::Close(SessionEnd::EmptyLine)
                    &&& final(self).state == SessionState::Closed
                } else {
                    &&& r matches SessionAction::Reply(b)
                    &&& b@ == frame(m@)
                    &&& final(self).state == SessionState::AwaitingMessage
                },
                SessionEvent::PeerClosed => {
                    &&& r == SessionAction::Close(SessionEnd::PeerClosed)
                    &&& final(self).state == SessionState::Closed
                },
                SessionEvent::TransportError => {
                    &&& r == SessionAction::Close(SessionEnd::TransportError)
                    &&& final(self).state == SessionState::Closed
                },
            },
    {
        match event {
            SessionEvent::Message(m) => {
                let empty = m.len() == 0;
                match decode_message(m) {
                    Err(_) => {
                        self.state = SessionState::Closed;
                        SessionAction::Close(SessionEnd::InvalidText)
                    },
                    Ok(text) => {
                        let reply = encode_message(text.as_str());
                        match self.mode {
                            EchoMode::SingleShot => {
                                self.state = SessionState::Closed;
                                SessionAction::ReplyAndClose(reply)
                            },
                            EchoMode::UntilEmptyLine => {
                                if empty {
                                    self.state = SessionState::Closed;
                                    SessionAction::Close(SessionEnd::EmptyLine)
                                } else {
                                    SessionAction::Reply(reply)
                                }
                            },
                        }
                    },
                }
            },
            SessionEvent::PeerClosed => {
                self.state = SessionState::Closed;
                SessionAction::Close(SessionEnd::PeerClosed)
            },
            SessionEvent::TransportError => {
                self.state = SessionState::Closed;
                SessionAction::Close(SessionEnd::TransportError)
            },
        }
    }
}

} // verus!
