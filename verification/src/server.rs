//! What a provider connection does with each frame it decodes.
//!
//! The connection itself (socket, reads and writes) lives outside this
//! crate; it feeds its bytes to a [`crate::s101::FrameDecoder`], asks
//! [`frame_action`] what to do with each frame, and does it.
use crate::s101::{
    encode_keep_alive_response, frame_bytes, frame_content, CommandType, Frame, FrameFlags,
    FrameView, MessageType,
};
use vstd::prelude::*;

verus! {

/// What to do with a decoded frame.
#[derive(Debug)]
pub enum FrameAction {
    /// Send these bytes back (the answer to a keep-alive request).
    Reply(Vec<u8>),
    /// Drop the frame.
    Ignore,
    /// Decode the frame's payload as Glow and hand its commands to the session.
    Dispatch,
}

/// The bytes of a keep-alive response frame.
pub open spec fn keep_alive_response_bytes() -> Seq<u8> {
    frame_bytes(
        frame_content(
            0x00,
            MessageType::Ember.code(),
            CommandType::KeepAliveResponse.code(),
            0x01,
            FrameFlags::SINGLE,
            0x00,
            Seq::empty(),
            Seq::empty(),
        ),
    )
}

/// The frame is a keep-alive request: an EmBER message with the keep-alive
/// request command.
pub open spec fn is_keep_alive_request_frame(f: FrameView) -> bool {
    f.message_type == MessageType::Ember.code() && f.command == CommandType::KeepAliveRequest.code()
}

/// The frame carries an EmBER packet.
pub open spec fn is_ember_packet_frame(f: FrameView) -> bool {
    f.message_type == MessageType::Ember.code() && f.command == CommandType::EmberPacket.code()
}

/// Decide what to do with a decoded frame: a keep-alive request is answered
/// with a keep-alive response, an EmBER packet is dispatched, and any other
/// frame is dropped.
pub fn frame_action(frame: &Frame) -> (a: FrameAction)
    ensures
        is_keep_alive_request_frame(frame@) ==> (a matches FrameAction::Reply(bytes) && bytes@
            == keep_alive_response_bytes()),
        !is_keep_alive_request_frame(frame@) && is_ember_packet_frame(frame@) ==> a is Dispatch,
        !is_keep_alive_request_frame(frame@) && !is_ember_packet_frame(frame@) ==> a is Ignore,
        frame.message_type == 0x0Eu8 && frame.command == 0x00u8 ==> a is Dispatch,
        frame.message_type == 0x0Eu8 && frame.command == 0x01u8 ==> a is Reply,
{
    if frame.is_keep_alive_request() {
        return FrameAction::Reply(encode_keep_alive_response());
    }
    if !frame.is_ember_packet() {
        return FrameAction::Ignore;
    }
    FrameAction::Dispatch
}

/// Every EmBER message with the EmBER-packet command (message type `0x0E`,
/// command `0x00`) is dispatched, whatever its slot, version, flags, DTD,
/// application bytes and payload.
pub proof fn lemma_ember_packets_are_dispatched(f: FrameView)
    requires
        f.message_type == 0x0Eu8,
        f.command == 0x00u8,
    ensures
        is_ember_packet_frame(f),
        !is_keep_alive_request_frame(f),
{
}

/// What is done with a frame depends on its message type and command alone:
/// two frames that agree in these two bytes are answered, dispatched or
/// dropped alike.
pub proof fn lemma_frame_kind_by_type_and_command(f: FrameView, g: FrameView)
    requires
        f.message_type == g.message_type,
        f.command == g.command,
    ensures
        is_keep_alive_request_frame(f) == is_keep_alive_request_frame(g),
        is_ember_packet_frame(f) == is_ember_packet_frame(g),
{
}

} // verus!
