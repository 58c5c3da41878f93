use vstd::prelude::*;

verus! {

/// The kinds of WebSocket message that can arrive on the connection.
#[derive(Debug, Clone, Copy, PartialEq, Eq, Structural)]
pub enum MessageKind {
    /// A text message: a Phoenix frame in JSON.
    Text,
    /// A binary message.
    Binary,
    /// A ping from the peer.
    Ping,
    /// A pong from the peer.
    Pong,
    /// The peer closes the connection.
    Close,
    /// A raw frame below the message level.
    Raw,
}

/// What the transport does with a received message.
#[derive(Debug, Clone, Copy, PartialEq, Eq, Structural)]
pub enum MessageStep {
    /// Decode the text as a frame and hand it over.
    Decode,
    /// The connection is over: no more frames.
    Closed,
    /// Answer with a pong and wait for the next message.
    AnswerPing,
    /// Wait for the next message.
    Ignore,
}

/// What the transport does with a message of the given kind: a text is a
/// frame, a close ends the frames, a ping is answered, and any other
/// message is passed over.
pub fn on_message(kind: MessageKind) -> (step: MessageStep)
    ensures
        step == match kind {
            MessageKind::Text => MessageStep::Decode,
            MessageKind::Close => MessageStep::Closed,
            MessageKind::Ping => MessageStep::AnswerPing,
            _ => MessageStep::Ignore,
        },
{
    match kind {
        MessageKind::Text => MessageStep::Decode,
        MessageKind::Close => MessageStep::Closed,
        MessageKind::Ping => MessageStep::AnswerPing,
        MessageKind::Binary | MessageKind::Pong | MessageKind::Raw => MessageStep::Ignore,
    }
}

} // verus!
