//! What the frames of a WebSocket connection mean to the bridge.

use vstd::prelude::*;
use vstd::utf8::{encode_utf8, valid_utf8};

verus! {

/// A frame from the client.
#[derive(Debug, Clone)]
pub enum Frame {
    Text(String),
    Binary(Vec<u8>),
    Close,
    /// A ping with this payload.
    Ping(Vec<u8>),
    Pong,
    /// A raw frame.
    Raw,
}

/// What is to be done about a frame.
#[derive(Debug, Clone)]
pub enum FrameAction {
    /// It holds a message, of which this is the text.
    Handle(String),
    /// It is passed over.
    Skip,
    /// It is answered with a pong of this payload.
    Pong(Vec<u8>),
    /// It ends the connection.
    Stop,
}

/// `String::from_utf8` gives the string whose UTF-8 encoding the bytes are, and
/// fails on bytes that are not UTF-8.
#[verifier::external_body]
fn string_from_utf8(bytes: Vec<u8>) -> (r: Option<String>)
    ensures
        match r {
            Some(s) => encode_utf8(s@) == bytes@,
            None => !valid_utf8(bytes@),
        },
{
    String::from_utf8(bytes).ok()
}

/// Decides what is to be done about a frame. The client sends its messages as
/// text or as the UTF-8 bytes of the text, and a ping is answered with its own
/// payload.
pub fn classify(frame: Frame) -> (r: FrameAction)
    ensures
        match frame {
            Frame::Text(t) => r matches FrameAction::Handle(s) && s@ == t@,
            Frame::Binary(b) => if valid_utf8(b@) {
                r matches FrameAction::Handle(s) && encode_utf8(s@) == b@
            } else {
                r is Skip
            },
            Frame::Close => r is Stop,
            Frame::Ping(p) => r matches FrameAction::Pong(q) && q@ == p@,
            Frame::Pong | Frame::Raw => r is Skip,
        },
{
    match frame {
        Frame::Text(t) => FrameAction::Handle(t),
        Frame::Binary(b) => match string_from_utf8(b) {
            Some(s) => {
                proof {
                    vstd::utf8::encode_utf8_valid_utf8(s@);
                }
                FrameAction::Handle(s)
            },
            None => FrameAction::Skip,
        },
        Frame::Close => FrameAction::Stop,
        Frame::Ping(p) => FrameAction::Pong(p),
        Frame::Pong | Frame::Raw => FrameAction::Skip,
    }
}

} // verus!
