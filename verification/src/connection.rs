//! What comes in over a connection, and which connection a symbol gets.

use vstd::prelude::*;

use crate::text::read_utf8;

verus! {

/// How many connections the symbols are spread over.
pub const GATE_COUNT: usize = 16;

/// The connection for the symbol that comes `index`-th: each in turn.
pub fn gate_index(index: usize) -> (gate: usize)
    ensures
        gate == index % GATE_COUNT,
        gate < GATE_COUNT,
{
    index % GATE_COUNT
}

/// What a websocket brings.
pub enum Frame {
    Text(Vec<u8>),
    Ping(Vec<u8>),
    /// The connection failed.
    Failed,
    /// Anything else.
    Other,
}

/// What a frame asks for.
pub enum FrameAction {
    /// Follow this message.
    Handle(String),
    /// The bytes of the message are no text.
    NotText,
    /// Send these bytes back.
    Pong(Vec<u8>),
    /// Leave the connection.
    Stop,
    Nothing,
}

/// What a frame asks for.
pub fn frame_action(frame: Frame) -> (action: FrameAction)
    ensures
        match frame {
            Frame::Text(bytes) => if vstd::utf8::valid_utf8(bytes@) {
                action matches FrameAction::Handle(text) && text@ == vstd::utf8::decode_utf8(
                    bytes@,
                )
            } else {
                action is NotText
            },
            Frame::Ping(bytes) => action == FrameAction::Pong(bytes),
            Frame::Failed => action is Stop,
            Frame::Other => action is Nothing,
        },
{
    match frame {
        Frame::Text(bytes) => match read_utf8(bytes.as_slice()) {
            Ok(text) => FrameAction::Handle(text.to_owned()),
            Err(_) => FrameAction::NotText,
        },
        Frame::Ping(bytes) => FrameAction::Pong(bytes),
        Frame::Failed => FrameAction::Stop,
        Frame::Other => FrameAction::Nothing,
    }
}

} // verus!
