//! S101 byte-framing protocol.
//!
//! S101 wraps EmBER packets for transmission over a stream transport such as
//! TCP. This module implements the escaping variant of the protocol:
//!
//! - Start of frame: `0xFE`
//! - End of frame: `0xFF`
//! - Escape byte: `0xFD`, followed by the escaped byte XOR `0x20`
//! - CRC-16-CCITT over the unescaped frame contents (excluding BOF/EOF)
//!
//! Multi-packet messages are indicated by the flags byte in the frame header.
use crate::buffer::{
    bytes_advance, bytes_as_slice, bytes_clear, bytes_contents, bytes_extend_from_slice,
    bytes_put_slice, bytes_put_u8, bytes_split_to, bytes_with_capacity,
};
use crate::error::{Error, Result};
use bytes::BytesMut;
use vstd::prelude::*;

verus! {

/// Byte indicating the beginning of an S101 frame.
pub const BOF: u8 = 0xFE;

/// Byte indicating the end of an S101 frame.
pub const EOF: u8 = 0xFF;

/// Escape byte used inside an S101 frame.
pub const CE: u8 = 0xFD;

/// XOR value applied to escaped bytes.
pub const ESCAPE_XOR: u8 = 0x20;

/// Bytes at or above this value are escaped in the frame body.
pub const ESCAPE_MASK: u8 = 0xF8;

/// S101 message types.
#[derive(Debug, Clone, Copy, PartialEq, Eq)]
pub enum MessageType {
    /// EmBER message.
    Ember,
}

impl MessageType {
    /// The message type's byte on the wire.
    pub open spec fn code(self) -> u8 {
        match self {
            MessageType::Ember => 0x0E,
        }
    }

    /// The message type's byte on the wire.
    pub fn to_u8(self) -> (r: u8)
        ensures
            r == self.code(),
    {
        match self {
            MessageType::Ember => 0x0E,
        }
    }
}

/// S101 command types.
#[derive(Debug, Clone, Copy, PartialEq, Eq)]
pub enum CommandType {
    /// EmBER packet command.
    EmberPacket,
    /// Keep-alive request command.
    KeepAliveRequest,
    /// Keep-alive response command.
    KeepAliveResponse,
}

impl CommandType {
    /// The command type's byte on the wire.
    pub open spec fn code(self) -> u8 {
        match self {
            CommandType::EmberPacket => 0x00,
            CommandType::KeepAliveRequest => 0x01,
            CommandType::KeepAliveResponse => 0x02,
        }
    }

    /// The command type's byte on the wire.
    pub fn to_u8(self) -> (r: u8)
        ensures
            r == self.code(),
    {
        match self {
            CommandType::EmberPacket => 0x00,
            CommandType::KeepAliveRequest => 0x01,
            CommandType::KeepAliveResponse => 0x02,
        }
    }
}

/// Frame flags used to indicate fragmentation: the top bit marks the first
/// packet of a message, the next bit its last packet, both a message in one
/// packet, and neither a packet in the middle.
#[derive(Debug, Clone, Copy, PartialEq, Eq)]
pub struct FrameFlags;

impl FrameFlags {
    /// First packet of a fragmented message.
    pub const FIRST: u8 = 0x80;

    /// Middle packet of a fragmented message.
    pub const MIDDLE: u8 = 0x00;

    /// Last packet of a fragmented message.
    pub const LAST: u8 = 0x40;

    /// Complete message in a single frame.
    pub const SINGLE: u8 = 0xC0;

    /// Mask for the fragment bits in the flags byte.
    pub const MASK: u8 = 0xC0;
}

/// DTD types carried in an S101 frame.
#[derive(Debug, Clone, Copy, PartialEq, Eq)]
pub enum DtdType {
    /// Glow DTD.
    Glow,
}

impl DtdType {
    /// The DTD type's byte on the wire.
    pub open spec fn code(self) -> u8 {
        match self {
            DtdType::Glow => 0x01,
        }
    }

    /// The DTD type's byte on the wire.
    pub fn to_u8(self) -> (r: u8)
        ensures
            r == self.code(),
    {
        match self {
            DtdType::Glow => 0x01,
        }
    }
}

/// A decoded S101 frame.
#[derive(Debug, Clone, PartialEq, Eq)]
pub struct Frame {
    /// Slot number.
    pub slot: u8,
    /// Message type.
    pub message_type: u8,
    /// Command type.
    pub command: u8,
    /// Version byte.
    pub version: u8,
    /// Frame flags.
    pub flags: u8,
    /// DTD type.
    pub dtd: u8,
    /// Application bytes (e.g. Glow DTD version).
    pub app_bytes: Vec<u8>,
    /// Payload bytes (EmBER data or keep-alive body).
    pub payload: Vec<u8>,
}

/// The mathematical model of a [`Frame`]: its header bytes and its two byte
/// sequences.
pub struct FrameView {
    pub slot: u8,
    pub message_type: u8,
    pub command: u8,
    pub version: u8,
    pub flags: u8,
    pub dtd: u8,
    pub app_bytes: Seq<u8>,
    pub payload: Seq<u8>,
}

impl View for Frame {
    type V = FrameView;

    open spec fn view(&self) -> FrameView {
        FrameView {
            slot: self.slot,
            message_type: self.message_type,
            command: self.command,
            version: self.version,
            flags: self.flags,
            dtd: self.dtd,
            app_bytes: self.app_bytes@,
            payload: self.payload@,
        }
    }
}

impl Frame {
    /// Returns true if this frame is a single, unfragmented message.
    pub fn is_single(&self) -> (r: bool)
        ensures
            r == (self.flags & FrameFlags::MASK == FrameFlags::SINGLE),
    {
        (self.flags & FrameFlags::MASK) == FrameFlags::SINGLE
    }

    /// Returns true if this frame is the first fragment of a message.
    pub fn is_first(&self) -> (r: bool)
        ensures
            r == (self.flags & FrameFlags::MASK == FrameFlags::FIRST),
    {
        (self.flags & FrameFlags::MASK) == FrameFlags::FIRST
    }

    /// Returns true if this frame is a middle fragment of a message.
    pub fn is_middle(&self) -> (r: bool)
        ensures
            r == (self.flags & FrameFlags::MASK == FrameFlags::MIDDLE),
    {
        (self.flags & FrameFlags::MASK) == FrameFlags::MIDDLE
    }

    /// Returns true if this frame is the last fragment of a message.
    pub fn is_last(&self) -> (r: bool)
        ensures
            r == (self.flags & FrameFlags::MASK == FrameFlags::LAST),
    {
        (self.flags & FrameFlags::MASK) == FrameFlags::LAST
    }

    /// Returns true if this frame carries an EmBER packet payload.
    pub fn is_ember_packet(&self) -> (r: bool)
        ensures
            r == (self.message_type == MessageType::Ember.code()
                && self.command == CommandType::EmberPacket.code()),
    {
        self.message_type == MessageType::Ember.to_u8() && self.command
            == CommandType::EmberPacket.to_u8()
    }

    /// Returns true if this frame is a keep-alive request.
    pub fn is_keep_alive_request(&self) -> (r: bool)
        ensures
            r == (self.message_type == MessageType::Ember.code() && self.command
                == CommandType::KeepAliveRequest.code()),
    {
        self.message_type == MessageType::Ember.to_u8() && self.command
            == CommandType::KeepAliveRequest.to_u8()
    }

    /// Returns true if this frame is a keep-alive response.
    pub fn is_keep_alive_response(&self) -> (r: bool)
        ensures
            r == (self.message_type == MessageType::Ember.code() && self.command
                == CommandType::KeepAliveResponse.code()),
    {
        self.message_type == MessageType::Ember.to_u8() && self.command
            == CommandType::KeepAliveResponse.to_u8()
    }
}

// ---------------------------------------------------------------------------
// Specification of the wire format
// ---------------------------------------------------------------------------

/// A byte that is sent escaped inside a frame.
pub open spec fn needs_escape(b: u8) -> bool {
    b >= ESCAPE_MASK || b == BOF || b == EOF || b == CE
}

/// How one byte is sent inside a frame.
pub open spec fn escape_byte(b: u8) -> Seq<u8> {
    if needs_escape(b) {
        seq![CE, b ^ ESCAPE_XOR]
    } else {
        seq![b]
    }
}

/// How a sequence of bytes is sent inside a frame: each byte escaped in turn.
pub open spec fn escape(s: Seq<u8>) -> Seq<u8>
    decreases s.len(),
{
    if s.len() == 0 {
        Seq::empty()
    } else {
        escape(s.drop_last()) + escape_byte(s.last())
    }
}

/// Reading escaped bytes left to right: the bytes recovered so far, and
/// whether the last byte read was an escape byte still waiting for its
/// partner.
pub open spec fn unescape(s: Seq<u8>) -> (Seq<u8>, bool)
    decreases s.len(),
{
    if s.len() == 0 {
        (Seq::empty(), false)
    } else {
        let (r, escaped) = unescape(s.drop_last());
        let b = s.last();
        if escaped {
            (r.push(b ^ ESCAPE_XOR), false)
        } else if b == CE {
            (r, true)
        } else {
            (r.push(b), false)
        }
    }
}

/// The lookup table of the byte-wise CRC-16-CCITT (reflected polynomial
/// 0x8408), the one `libember_slim` uses.
pub const CRC_TABLE: [u16; 256] = [
    0x0000, 0x1189, 0x2312, 0x329b, 0x4624, 0x57ad, 0x6536, 0x74bf,
    0x8c48, 0x9dc1, 0xaf5a, 0xbed3, 0xca6c, 0xdbe5, 0xe97e, 0xf8f7,
    0x1081, 0x0108, 0x3393, 0x221a, 0x56a5, 0x472c, 0x75b7, 0x643e,
    0x9cc9, 0x8d40, 0xbfdb, 0xae52, 0xdaed, 0xcb64, 0xf9ff, 0xe876,
    0x2102, 0x308b, 0x0210, 0x1399, 0x6726, 0x76af, 0x4434, 0x55bd,
    0xad4a, 0xbcc3, 0x8e58, 0x9fd1, 0xeb6e, 0xfae7, 0xc87c, 0xd9f5,
    0x3183, 0x200a, 0x1291, 0x0318, 0x77a7, 0x662e, 0x54b5, 0x453c,
    0xbdcb, 0xac42, 0x9ed9, 0x8f50, 0xfbef, 0xea66, 0xd8fd, 0xc974,
    0x4204, 0x538d, 0x6116, 0x709f, 0x0420, 0x15a9, 0x2732, 0x36bb,
    0xce4c, 0xdfc5, 0xed5e, 0xfcd7, 0x8868, 0x99e1, 0xab7a, 0xbaf3,
    0x5285, 0x430c, 0x7197, 0x601e, 0x14a1, 0x0528, 0x37b3, 0x263a,
    0xdecd, 0xcf44, 0xfddf, 0xec56, 0x98e9, 0x8960, 0xbbfb, 0xaa72,
    0x6306, 0x728f, 0x4014, 0x519d, 0x2522, 0x34ab, 0x0630, 0x17b9,
    0xef4e, 0xfec7, 0xcc5c, 0xddd5, 0xa96a, 0xb8e3, 0x8a78, 0x9bf1,
    0x7387, 0x620e, 0x5095, 0x411c, 0x35a3, 0x242a, 0x16b1, 0x0738,
    0xffcf, 0xee46, 0xdcdd, 0xcd54, 0xb9eb, 0xa862, 0x9af9, 0x8b70,
    0x8408, 0x9581, 0xa71a, 0xb693, 0xc22c, 0xd3a5, 0xe13e, 0xf0b7,
    0x0840, 0x19c9, 0x2b52, 0x3adb, 0x4e64, 0x5fed, 0x6d76, 0x7cff,
    0x9489, 0x8500, 0xb79b, 0xa612, 0xd2ad, 0xc324, 0xf1bf, 0xe036,
    0x18c1, 0x0948, 0x3bd3, 0x2a5a, 0x5ee5, 0x4f6c, 0x7df7, 0x6c7e,
    0xa50a, 0xb483, 0x8618, 0x9791, 0xe32e, 0xf2a7, 0xc03c, 0xd1b5,
    0x2942, 0x38cb, 0x0a50, 0x1bd9, 0x6f66, 0x7eef, 0x4c74, 0x5dfd,
    0xb58b, 0xa402, 0x9699, 0x8710, 0xf3af, 0xe226, 0xd0bd, 0xc134,
    0x39c3, 0x284a, 0x1ad1, 0x0b58, 0x7fe7, 0x6e6e, 0x5cf5, 0x4d7c,
    0xc60c, 0xd785, 0xe51e, 0xf497, 0x8028, 0x91a1, 0xa33a, 0xb2b3,
    0x4a44, 0x5bcd, 0x6956, 0x78df, 0x0c60, 0x1de9, 0x2f72, 0x3efb,
    0xd68d, 0xc704, 0xf59f, 0xe416, 0x90a9, 0x8120, 0xb3bb, 0xa232,
    0x5ac5, 0x4b4c, 0x79d7, 0x685e, 0x1ce1, 0x0d68, 0x3ff3, 0x2e7a,
    0xe70e, 0xf687, 0xc41c, 0xd595, 0xa12a, 0xb0a3, 0x8238, 0x93b1,
    0x6b46, 0x7acf, 0x4854, 0x59dd, 0x2d62, 0x3ceb, 0x0e70, 0x1ff9,
    0xf78f, 0xe606, 0xd49d, 0xc514, 0xb1ab, 0xa022, 0x92b9, 0x8330,
    0x7bc7, 0x6a4e, 0x58d5, 0x495c, 0x3de3, 0x2c6a, 0x1ef1, 0x0f78,
];

/// One byte of the table-driven CRC-16-CCITT.
pub open spec fn crc_step(crc: u16, b: u8) -> u16 {
    (crc >> 8u16) ^ CRC_TABLE@[((crc ^ (b as u16)) & 0xFFu16) as int]
}

/// CRC-16-CCITT of a byte sequence, starting from `0xFFFF`, without the final
/// inversion.
pub open spec fn crc16(s: Seq<u8>) -> u16
    decreases s.len(),
{
    if s.len() == 0 {
        0xFFFFu16
    } else {
        crc_step(crc16(s.drop_last()), s.last())
    }
}

/// The two bytes of a 16-bit value, little end first.
pub open spec fn le_bytes(v: u16) -> Seq<u8> {
    seq![(v & 0xFFu16) as u8, (v >> 8u16) as u8]
}

/// The 16-bit value whose little-endian bytes are `lo`, `hi`.
pub open spec fn le_u16(lo: u8, hi: u8) -> u16 {
    (lo as u16) | ((hi as u16) << 8u16)
}

/// The unescaped contents of a frame: the seven header bytes (the last of which
/// is the number of application bytes, kept to its low eight bits), the
/// application bytes and the payload.
pub open spec fn frame_content(
    slot: u8,
    message_type: u8,
    command: u8,
    version: u8,
    flags: u8,
    dtd: u8,
    app_bytes: Seq<u8>,
    payload: Seq<u8>,
) -> Seq<u8> {
    seq![slot, message_type, command, version, flags, dtd, app_bytes.len() as u8] + app_bytes
        + payload
}

/// The bytes on the wire for a frame with the given unescaped contents: BOF,
/// the escaped contents, the escaped inverted CRC (little end first), EOF.
pub open spec fn frame_bytes(content: Seq<u8>) -> Seq<u8> {
    seq![BOF] + escape(content) + escape(le_bytes(!crc16(content))) + seq![EOF]
}

/// Whether frame contents of `n` bytes stay within what the machine can
/// allocate for the encoded frame.
pub open spec fn content_fits(n: nat) -> bool {
    n + 17 <= isize::MAX as int / 2
}

/// An upper-case hexadecimal digit.
pub open spec fn hex_digit(n: u16) -> char {
    if n < 10 {
        (n + 48) as char
    } else {
        (n + 55) as char
    }
}

/// Four upper-case hexadecimal digits, most significant first.
pub open spec fn hex4(v: u16) -> Seq<char> {
    seq![
        hex_digit((v >> 12u16) & 0xFu16),
        hex_digit((v >> 8u16) & 0xFu16),
        hex_digit((v >> 4u16) & 0xFu16),
        hex_digit(v & 0xFu16),
    ]
}

/// The message of a CRC mismatch.
pub open spec fn crc_mismatch_text(expected: u16, got: u16) -> Seq<char> {
    "CRC mismatch: expected "@ + hex4(expected) + ", got "@ + hex4(got)
}

/// Parsing the unescaped contents of a frame (without the CRC) into a frame,
/// or the message of the error.
pub open spec fn parse_content(c: Seq<u8>) -> std::result::Result<FrameView, Seq<char>> {
    if c.len() < 7 {
        Err("content too short for header"@)
    } else if c.len() < 7 + c[6] {
        Err("app bytes truncated"@)
    } else {
        Ok(
            FrameView {
                slot: c[0],
                message_type: c[1],
                command: c[2],
                version: c[3],
                flags: c[4],
                dtd: c[5],
                app_bytes: c.subrange(7, 7 + c[6]),
                payload: c.subrange(7 + c[6], c.len() as int),
            },
        )
    }
}

/// Decoding the bytes of one whole frame, BOF to EOF, into a frame, or the
/// message of the error.
pub open spec fn decode_frame(bytes: Seq<u8>) -> std::result::Result<FrameView, Seq<char>> {
    if bytes.len() < 4 {
        Err("frame too short"@)
    } else if bytes[0] != BOF || bytes.last() != EOF {
        Err("frame missing BOF/EOF"@)
    } else {
        let (raw, escaped) = unescape(bytes.subrange(1, bytes.len() - 1));
        if escaped {
            Err("dangling escape byte"@)
        } else if raw.len() < 4 {
            Err("decoded frame too short"@)
        } else {
            let content = raw.take(raw.len() - 2);
            let received = le_u16(raw[raw.len() - 2], raw[raw.len() - 1]);
            let expected = !crc16(content);
            if received != expected {
                Err(crc_mismatch_text(expected, received))
            } else {
                parse_content(content)
            }
        }
    }
}

/// `res` is what the spec result `r` describes: the frame with that model, or
/// an S101 error with that message.
pub open spec fn frame_result_is(
    res: Result<Frame>,
    r: std::result::Result<FrameView, Seq<char>>,
) -> bool {
    match r {
        Ok(f) => res matches Ok(fr) && fr@ == f,
        Err(m) => res matches Err(e) && e.is_s101_with(m),
    }
}

// ---------------------------------------------------------------------------
// Encoding
// ---------------------------------------------------------------------------

/// Build an S101 EmBER frame carrying the provided EmBER payload.
pub fn encode_ember_frame(payload: &[u8]) -> (out: Vec<u8>)
    requires
        content_fits(9 + payload@.len()),
    ensures
        out@ == frame_bytes(
            frame_content(
                0x00,
                MessageType::Ember.code(),
                CommandType::EmberPacket.code(),
                0x01,
                FrameFlags::SINGLE,
                DtdType::Glow.code(),
                seq![0x05u8, 0x02u8],
                payload@,
            ),
        ),
{
    let app: [u8; 2] = [0x05, 0x02];
    encode_frame(
        0x00,
        MessageType::Ember.to_u8(),
        CommandType::EmberPacket.to_u8(),
        0x01,
        FrameFlags::SINGLE,
        DtdType::Glow.to_u8(),
        app.as_slice(),
        payload,
    )
}

/// Build an S101 keep-alive request frame.
pub fn encode_keep_alive_request() -> (out: Vec<u8>)
    ensures
        out@ == frame_bytes(
            frame_content(
                0x00,
                MessageType::Ember.code(),
                CommandType::KeepAliveRequest.code(),
                0x01,
                FrameFlags::SINGLE,
                0x00,
                Seq::empty(),
                Seq::empty(),
            ),
        ),
{
    let none: [u8; 0] = [];
    encode_frame(
        0x00,
        MessageType::Ember.to_u8(),
        CommandType::KeepAliveRequest.to_u8(),
        0x01,
        FrameFlags::SINGLE,
        0x00,
        none.as_slice(),
        none.as_slice(),
    )
}

/// Build an S101 keep-alive response frame.
pub fn encode_keep_alive_response() -> (out: Vec<u8>)
    ensures
        out@ == frame_bytes(
            frame_content(
                0x00,
                MessageType::Ember.code(),
                CommandType::KeepAliveResponse.code(),
                0x01,
                FrameFlags::SINGLE,
                0x00,
                Seq::empty(),
                Seq::empty(),
            ),
        ),
{
    let none: [u8; 0] = [];
    encode_frame(
        0x00,
        MessageType::Ember.to_u8(),
        CommandType::KeepAliveResponse.to_u8(),
        0x01,
        FrameFlags::SINGLE,
        0x00,
        none.as_slice(),
        none.as_slice(),
    )
}

fn encode_frame(
    slot: u8,
    message_type: u8,
    command: u8,
    version: u8,
    flags: u8,
    dtd: u8,
    app_bytes: &[u8],
    payload: &[u8],
) -> (out: Vec<u8>)
    requires
        content_fits(7 + app_bytes@.len() + payload@.len()),
    ensures
        out@ == frame_bytes(
            frame_content(slot, message_type, command, version, flags, dtd, app_bytes@, payload@),
        ),
{
    let mut raw = bytes_with_capacity(8 + app_bytes.len() + payload.len() + 2);
    bytes_put_u8(&mut raw, slot);
    bytes_put_u8(&mut raw, message_type);
    bytes_put_u8(&mut raw, command);
    bytes_put_u8(&mut raw, version);
    bytes_put_u8(&mut raw, flags);
    bytes_put_u8(&mut raw, dtd);
    bytes_put_u8(&mut raw, app_bytes.len() as u8);
    bytes_put_slice(&mut raw, app_bytes);
    bytes_put_slice(&mut raw, payload);
    let content = bytes_as_slice(&raw);
    assert(content@ =~= frame_content(
        slot,
        message_type,
        command,
        version,
        flags,
        dtd,
        app_bytes@,
        payload@,
    ));

    let crc = crc16_ccitt(content);
    let crc_inverted = !crc;

    let mut out = Vec::with_capacity(content.len() * 2 + 3);
    out.push(BOF);
    escape_and_append(content, &mut out);
    let crc_le: [u8; 2] = [(crc_inverted & 0xFF) as u8, (crc_inverted >> 8) as u8];
    assert(crc_le@ =~= le_bytes(crc_inverted));
    escape_and_append(crc_le.as_slice(), &mut out);
    out.push(EOF);
    assert(out@ =~= frame_bytes(content@));
    out
}

fn escape_and_append(input: &[u8], out: &mut Vec<u8>)
    ensures
        final(out)@ == old(out)@ + escape(input@),
{
    let mut i: usize = 0;
    while i < input.len()
        invariant
            i <= input.len(),
            out@ == old(out)@ + escape(input@.take(i as int)),
        decreases input.len() - i,
    {
        let b = input[i];
        proof {
            assert(input@.take(i + 1).drop_last() =~= input@.take(i as int));
        }
        if b >= ESCAPE_MASK || b == BOF || b == EOF || b == CE {
            out.push(CE);
            out.push(b ^ ESCAPE_XOR);
        } else {
            out.push(b);
        }
        i += 1;
        assert(out@ =~= old(out)@ + escape(input@.take(i as int)));
    }
    assert(input@.take(i as int) =~= input@);
}

/// Compute CRC-16-CCITT over the provided bytes using the same algorithm as
/// `libember_slim`.
fn crc16_ccitt(data: &[u8]) -> (crc: u16)
    ensures
        crc == crc16(data@),
{
    let mut crc: u16 = 0xFFFF;
    let mut i: usize = 0;
    while i < data.len()
        invariant
            i <= data.len(),
            crc == crc16(data@.take(i as int)),
        decreases data.len() - i,
    {
        let byte = data[i];
        proof {
            assert(data@.take(i + 1).drop_last() =~= data@.take(i as int));
        }
        assert((crc ^ (byte as u16)) & 0xFFu16 <= 0xFFu16) by (bit_vector);
        let index = ((crc ^ (byte as u16)) & 0xFF) as usize;
        crc = (crc >> 8) ^ CRC_TABLE[index];
        i += 1;
    }
    assert(data@.take(i as int) =~= data@);
    crc
}

// ---------------------------------------------------------------------------
// Decoding
// ---------------------------------------------------------------------------

/// Wraps `format!` for the CRC mismatch message. The standard library
/// documents that `{:04X}` writes an integer in upper-case hexadecimal, padded
/// with zeros to at least four digits; a `u16` never needs more than four.
#[verifier::external_body]
fn crc_mismatch_message(expected: u16, got: u16) -> (s: String)
    ensures
        s@ == crc_mismatch_text(expected, got),
{
    format!("CRC mismatch: expected {:04X}, got {:04X}", expected, got)
}

/// Decode the bytes of one whole frame, from BOF to EOF.
pub fn decode_single_frame(bytes: &[u8]) -> (res: Result<Frame>)
    ensures
        frame_result_is(res, decode_frame(bytes@)),
{
    if bytes.len() < 4 {
        return Err(Error::S101(String::from_str("frame too short")));
    }
    if bytes[0] != BOF || bytes[bytes.len() - 1] != EOF {
        return Err(Error::S101(String::from_str("frame missing BOF/EOF")));
    }

    let mut raw: Vec<u8> = Vec::with_capacity(bytes.len());
    let mut escaped = false;
    let end = bytes.len() - 1;
    let mut i: usize = 1;
    while i < end
        invariant
            1 <= i <= end,
            end == bytes@.len() - 1,
            (raw@, escaped) == unescape(bytes@.subrange(1, i as int)),
        decreases end - i,
    {
        let b = bytes[i];
        proof {
            assert(bytes@.subrange(1, i + 1).drop_last() =~= bytes@.subrange(1, i as int));
        }
        if escaped {
            raw.push(b ^ ESCAPE_XOR);
            escaped = false;
        } else if b == CE {
            escaped = true;
        } else {
            raw.push(b);
        }
        i += 1;
    }

    if escaped {
        return Err(Error::S101(String::from_str("dangling escape byte")));
    }
    if raw.len() < 4 {
        return Err(Error::S101(String::from_str("decoded frame too short")));
    }

    let n = raw.len();
    let content = &raw.as_slice()[0..n - 2];
    let received_crc = (raw[n - 2] as u16) | ((raw[n - 1] as u16) << 8);
    let computed_crc = crc16_ccitt(content);
    assert(content@ =~= raw@.take(n - 2));

    if received_crc != !computed_crc {
        return Err(Error::S101(crc_mismatch_message(!computed_crc, received_crc)));
    }

    parse_frame_content(content)
}

fn parse_frame_content(content: &[u8]) -> (res: Result<Frame>)
    ensures
        frame_result_is(res, parse_content(content@)),
{
    if content.len() < 7 {
        return Err(Error::S101(String::from_str("content too short for header")));
    }

    let slot = content[0];
    let message_type = content[1];
    let command = content[2];
    let version = content[3];
    let flags = content[4];
    let dtd = content[5];
    let app_count = content[6] as usize;

    if content.len() < 7 + app_count {
        return Err(Error::S101(String::from_str("app bytes truncated")));
    }

    let app_bytes = vstd::slice::slice_to_vec(&content[7..7 + app_count]);
    let payload = vstd::slice::slice_to_vec(&content[7 + app_count..content.len()]);

    Ok(Frame { slot, message_type, command, version, flags, dtd, app_bytes, payload })
}

/// The first index at or after `start` that holds `b`.
pub open spec fn first_index_from(s: Seq<u8>, b: u8, start: int) -> Option<int>
    decreases s.len() - start,
{
    if start < 0 || start >= s.len() {
        None
    } else if s[start] == b {
        Some(start)
    } else {
        first_index_from(s, b, start + 1)
    }
}

fn position_from(s: &[u8], b: u8, start: usize) -> (r: Option<usize>)
    ensures
        first_index_from(s@, b, start as int) == match r {
            Some(i) => Some(i as int),
            None => None,
        },
        r matches Some(i) ==> start <= i < s@.len() && s@[i as int] == b,
        s@.len() <= usize::MAX,
{
    let mut i = start;
    while i < s.len()
        invariant
            start <= i,
            first_index_from(s@, b, start as int) == first_index_from(s@, b, i as int),
        decreases s.len() - i,
    {
        if s[i] == b {
            return Some(i);
        }
        i += 1;
    }
    None
}

/// What one call of [`FrameDecoder::decode_next`] reports.
pub enum DecodeStep {
    /// More bytes are needed (`Ok(None)`).
    NeedMore,
    /// A frame with this model was decoded.
    Decoded(FrameView),
    /// The frame that was cut off the buffer is invalid; the S101 error has
    /// this message.
    Failed(Seq<char>),
}

/// `res` is what `step` describes.
pub open spec fn step_result_is(res: Result<Option<Frame>>, step: DecodeStep) -> bool {
    match step {
        DecodeStep::NeedMore => res matches Ok(None),
        DecodeStep::Decoded(f) => res matches Ok(Some(fr)) && fr@ == f,
        DecodeStep::Failed(m) => res matches Err(e) && e.is_s101_with(m),
    }
}

/// What decoding the bytes of one whole frame reports.
pub open spec fn frame_step(bytes: Seq<u8>) -> DecodeStep {
    match decode_frame(bytes) {
        Ok(f) => DecodeStep::Decoded(f),
        Err(m) => DecodeStep::Failed(m),
    }
}

/// One call of [`FrameDecoder::decode_next`] on a decoder that holds `buf` and
/// is (or is not) inside a frame: the bytes it keeps, whether it is then inside
/// a frame, and what it reports.
///
/// Outside a frame, everything before the first BOF is dropped (all of it
/// when there is none). Inside a frame, the bytes up to the first EOF after the
/// frame's first byte are cut off and decoded as one frame.
pub open spec fn decode_step(buf: Seq<u8>, in_frame: bool) -> (Seq<u8>, bool, DecodeStep) {
    let start: Option<Seq<u8>> = if in_frame {
        Some(buf)
    } else {
        match first_index_from(buf, BOF, 0) {
            Some(p) => Some(buf.skip(p)),
            None => None,
        }
    };
    match start {
        None => (Seq::empty(), false, DecodeStep::NeedMore),
        Some(b) => match first_index_from(b, EOF, 1) {
            Some(end) => (b.skip(end + 1), false, frame_step(b.take(end + 1))),
            None => (b, true, DecodeStep::NeedMore),
        },
    }
}

/// Streaming S101 frame decoder.
///
/// Feeds raw bytes from a TCP stream and emits complete [`Frame`] values.
#[derive(Debug)]
pub struct FrameDecoder {
    buf: BytesMut,
    in_frame: bool,
}

impl FrameDecoder {
    /// The bytes the decoder holds and has not consumed.
    pub closed spec fn buffered(&self) -> Seq<u8> {
        bytes_contents(self.buf)
    }

    /// Whether the held bytes start inside a frame (at its BOF).
    pub closed spec fn is_in_frame(&self) -> bool {
        self.in_frame
    }

    /// Create a new decoder.
    pub fn new() -> (d: Self)
        ensures
            d.buffered() == Seq::<u8>::empty(),
            !d.is_in_frame(),
    {
        Self { buf: bytes_with_capacity(4096), in_frame: false }
    }

    /// The number of bytes the decoder holds.
    pub fn buffered_len(&self) -> (n: usize)
        ensures
            n == self.buffered().len(),
    {
        bytes_as_slice(&self.buf).len()
    }

    /// Feed bytes into the decoder.
    pub fn feed(&mut self, bytes: &[u8])
        requires
            old(self).buffered().len() + bytes@.len() <= isize::MAX,
        ensures
            final(self).buffered() == old(self).buffered() + bytes@,
            final(self).is_in_frame() == old(self).is_in_frame(),
    {
        bytes_extend_from_slice(&mut self.buf, bytes);
    }

    /// Try to decode the next complete frame.
    ///
    /// Returns `Ok(Some(frame))` when a frame is available, `Ok(None)` when more
    /// bytes are needed, or `Err` if the stream contains an invalid frame.
    pub fn decode_next(&mut self) -> (res: Result<Option<Frame>>)
        ensures
            ({
                let (buf, in_frame, step) = decode_step(
                    old(self).buffered(),
                    old(self).is_in_frame(),
                );
                &&& final(self).buffered() == buf
                &&& final(self).is_in_frame() == in_frame
                &&& step_result_is(res, step)
            }),
    {
        if !self.in_frame {
            // Look for the next BOF.
            match position_from(bytes_as_slice(&self.buf), BOF, 0) {
                Some(pos) => {
                    bytes_advance(&mut self.buf, pos);
                    self.in_frame = true;
                },
                None => {
                    bytes_clear(&mut self.buf);
                    return Ok(None);
                },
            }
        }
        // Now inside a frame: look for EOF after its first byte.

        match position_from(bytes_as_slice(&self.buf), EOF, 1) {
            Some(end) => {
                let frame_bytes = bytes_split_to(&mut self.buf, end + 1);
                self.in_frame = false;
                let decoded = decode_single_frame(bytes_as_slice(&frame_bytes));
                match decoded {
                    Ok(frame) => Ok(Some(frame)),
                    Err(e) => Err(e),
                }
            },
            None => Ok(None),
        }
    }
}

impl Default for FrameDecoder {
    fn default() -> (d: Self)
        ensures
            d.buffered() == Seq::<u8>::empty(),
            !d.is_in_frame(),
    {
        Self::new()
    }
}

// ---------------------------------------------------------------------------
// Laws of the framing
// ---------------------------------------------------------------------------

/// Escaping a concatenation escapes each part.
pub proof fn lemma_escape_concat(a: Seq<u8>, b: Seq<u8>)
    ensures
        escape(a + b) == escape(a) + escape(b),
    decreases b.len(),
{
    if b.len() == 0 {
        assert(a + b =~= a);
        assert(escape(a) + escape(b) =~= escape(a));
    } else {
        assert((a + b).drop_last() =~= a + b.drop_last());
        assert((a + b).last() == b.last());
        lemma_escape_concat(a, b.drop_last());
        assert(escape(a + b) =~= escape(a) + escape(b));
    }
}

/// Escaping never shortens.
pub proof fn lemma_escape_len(s: Seq<u8>)
    ensures
        escape(s).len() >= s.len(),
    decreases s.len(),
{
    if s.len() > 0 {
        lemma_escape_len(s.drop_last());
    }
}

/// An escaped byte sequence holds neither BOF nor EOF, so those two bytes can
/// only mark the bounds of a frame.
pub proof fn lemma_escape_no_frame_marks(s: Seq<u8>)
    ensures
        forall|i: int|
            0 <= i < escape(s).len() ==> #[trigger] escape(s)[i] != BOF && escape(s)[i] != EOF,
    decreases s.len(),
{
    if s.len() > 0 {
        lemma_escape_no_frame_marks(s.drop_last());
        let b = s.last();
        assert(b >= 0xF8u8 ==> (b ^ 0x20u8) != 0xFEu8 && (b ^ 0x20u8) != 0xFFu8) by (bit_vector);
        let e = escape(s);
        let p = escape(s.drop_last());
        assert forall|i: int| 0 <= i < e.len() implies #[trigger] e[i] != BOF && e[i] != EOF by {
            if i < p.len() {
                assert(e[i] == p[i]);
            }
        }
    }
}

/// Reading back escaped bytes gives the bytes that were escaped, with no escape byte
/// left waiting.
pub proof fn lemma_unescape_escape(s: Seq<u8>)
    ensures
        unescape(escape(s)) == (s, false),
    decreases s.len(),
{
    if s.len() == 0 {
        assert(escape(s) =~= Seq::<u8>::empty());
        assert(s =~= Seq::<u8>::empty());
    } else {
        let p = s.drop_last();
        let b = s.last();
        lemma_unescape_escape(p);
        let ep = escape(p);
        if needs_escape(b) {
            let x = b ^ ESCAPE_XOR;
            assert((b ^ 0x20u8) ^ 0x20u8 == b) by (bit_vector);
            let e = escape(s);
            assert(e =~= ep.push(CE).push(x));
            assert(e.drop_last() =~= ep.push(CE));
            assert(ep.push(CE).drop_last() =~= ep);
            assert(unescape(ep.push(CE)) == (p, true));
            assert(p.push(b) =~= s);
        } else {
            let e = escape(s);
            assert(e =~= ep.push(b));
            assert(e.drop_last() =~= ep);
            assert(p.push(b) =~= s);
        }
    }
}

/// The 16-bit value is recovered from its little-endian bytes.
pub proof fn lemma_le_bytes_roundtrip(v: u16)
    ensures
        le_u16(le_bytes(v)[0], le_bytes(v)[1]) == v,
{
    assert(((v & 0xFFu16) as u8 as u16) | (((v >> 8u16) as u8 as u16) << 8u16) == v)
        by (bit_vector);
}

/// A frame's bytes: BOF first, EOF last, and neither anywhere in between.
pub proof fn lemma_frame_marks(content: Seq<u8>)
    ensures
        ({
            let f = frame_bytes(content);
            &&& f.len() >= content.len() + 4
            &&& f[0] == BOF
            &&& f.last() == EOF
            &&& forall|i: int| 1 <= i < f.len() - 1 ==> #[trigger] f[i] != BOF && f[i] != EOF
        }),
{
    let crc = le_bytes(!crc16(content));
    let body = content + crc;
    lemma_escape_concat(content, crc);
    lemma_escape_len(body);
    lemma_escape_no_frame_marks(body);
    let f = frame_bytes(content);
    let e = escape(body);
    assert(f =~= seq![BOF] + e + seq![EOF]);
    assert forall|i: int| 1 <= i < f.len() - 1 implies #[trigger] f[i] != BOF && f[i] != EOF by {
        assert(f[i] == e[i - 1]);
    }
}

/// Decoding the bytes of a frame gives back its contents, parsed: the CRC
/// check passes and every escaped byte is restored.
pub proof fn lemma_decode_frame_bytes(content: Seq<u8>)
    requires
        content.len() >= 2,
    ensures
        decode_frame(frame_bytes(content)) == parse_content(content),
{
    let crc = le_bytes(!crc16(content));
    let body = content + crc;
    lemma_escape_concat(content, crc);
    lemma_escape_len(body);
    lemma_unescape_escape(body);
    lemma_le_bytes_roundtrip(!crc16(content));
    let f = frame_bytes(content);
    let e = escape(body);
    assert(f =~= seq![BOF] + e + seq![EOF]);
    assert(f.subrange(1, f.len() - 1) =~= e);
    assert(body.take(body.len() - 2) =~= content);
    assert(body[body.len() - 2] == crc[0]);
    assert(body[body.len() - 1] == crc[1]);
}

/// Parsing frame contents built from header bytes, application bytes and a
/// payload gives those fields back, when there are at most 255 application
/// bytes (the count is sent in one byte).
pub proof fn lemma_parse_frame_content(
    slot: u8,
    message_type: u8,
    command: u8,
    version: u8,
    flags: u8,
    dtd: u8,
    app_bytes: Seq<u8>,
    payload: Seq<u8>,
)
    requires
        app_bytes.len() <= 255,
    ensures
        parse_content(
            frame_content(slot, message_type, command, version, flags, dtd, app_bytes, payload),
        ) == Ok::<FrameView, Seq<char>>(
            FrameView { slot, message_type, command, version, flags, dtd, app_bytes, payload },
        ),
{
    let c = frame_content(slot, message_type, command, version, flags, dtd, app_bytes, payload);
    assert(c[6] == app_bytes.len());
    assert(c.subrange(7, 7 + c[6]) =~= app_bytes);
    assert(c.subrange(7 + c[6], c.len() as int) =~= payload);
}

/// A frame survives encoding and decoding: decoding the bytes of a frame with
/// at most 255 application bytes gives back every field of it.
pub proof fn lemma_frame_roundtrip(
    slot: u8,
    message_type: u8,
    command: u8,
    version: u8,
    flags: u8,
    dtd: u8,
    app_bytes: Seq<u8>,
    payload: Seq<u8>,
)
    requires
        app_bytes.len() <= 255,
    ensures
        decode_frame(
            frame_bytes(
                frame_content(slot, message_type, command, version, flags, dtd, app_bytes, payload),
            ),
        ) == Ok::<FrameView, Seq<char>>(
            FrameView { slot, message_type, command, version, flags, dtd, app_bytes, payload },
        ),
{
    lemma_decode_frame_bytes(
        frame_content(slot, message_type, command, version, flags, dtd, app_bytes, payload),
    );
    lemma_parse_frame_content(slot, message_type, command, version, flags, dtd, app_bytes, payload);
}

/// When `b` does not occur in `s[start..end]`, searching from `start` finds
/// what searching from `end` finds.
pub proof fn lemma_first_index_skip(s: Seq<u8>, b: u8, start: int, end: int)
    requires
        0 <= start <= end <= s.len(),
        forall|i: int| start <= i < end ==> s[i] != b,
    ensures
        first_index_from(s, b, start) == first_index_from(s, b, end),
    decreases end - start,
{
    if start < end {
        lemma_first_index_skip(s, b, start + 1, end);
    }
}

/// The streaming decoder finds a frame however its bytes arrive: fed the
/// first `k` bytes of a frame (fewer than all), a decoder outside any frame
/// asks for more; fed the rest, it yields that frame and holds nothing.
pub proof fn lemma_stream_split(content: Seq<u8>, k: int)
    requires
        0 <= k < frame_bytes(content).len(),
    ensures
        ({
            let f = frame_bytes(content);
            let (held, in_frame, step) = decode_step(f.take(k), false);
            &&& step == DecodeStep::NeedMore
            &&& decode_step(held + f.skip(k), in_frame) == (
                Seq::<u8>::empty(),
                false,
                frame_step(f),
            )
        }),
{
    let f = frame_bytes(content);
    lemma_frame_marks(content);
    let n = f.len() as int;
    let t = f.take(k);
    assert(first_index_from(f, BOF, 0) == Some(0int));
    lemma_first_index_skip(f, EOF, 1, n - 1);
    assert(first_index_from(f, EOF, n - 1) == Some(n - 1));
    assert(f.take(n) =~= f);
    assert(f.skip(n) =~= Seq::<u8>::empty());
    assert(f.skip(0) =~= f);
    if k == 0 {
        assert(t =~= Seq::<u8>::empty());
        assert(Seq::<u8>::empty() + f.skip(0) =~= f);
    } else {
        assert(t[0] == BOF);
        assert(first_index_from(t, BOF, 0) == Some(0int));
        assert(t.skip(0) =~= t);
        lemma_first_index_skip(t, EOF, 1, k);
        assert(first_index_from(t, EOF, k) is None);
        assert(t + f.skip(k) =~= f);
    }
}

/// Frames are taken one at a time: a decoder outside any frame that holds a
/// whole frame followed by more bytes yields that frame and keeps exactly the
/// bytes after it.
pub proof fn lemma_stream_frame_then_rest(content: Seq<u8>, rest: Seq<u8>)
    ensures
        decode_step(frame_bytes(content) + rest, false) == (
            rest,
            false,
            frame_step(frame_bytes(content)),
        ),
{
    let f = frame_bytes(content);
    lemma_frame_marks(content);
    lemma_stream_chunk_then_rest(f, rest);
}

/// However the bytes of a frame arrive, a decoder fed them holds exactly the
/// bytes received so far and is inside the frame once its BOF has come, asking
/// for more, until the last byte; fed the whole frame, from either state, it
/// yields the frame and holds nothing.
///
/// Feeding appends to what the decoder holds, so by this law every split of a
/// frame into pieces is decoded the same: `NeedMore` after each piece but the
/// last, and the frame after the last.
pub proof fn lemma_stream_prefixes(content: Seq<u8>, k: int, in_frame: bool)
    requires
        0 <= k < frame_bytes(content).len(),
        in_frame ==> k > 0,
    ensures
        decode_step(frame_bytes(content).take(k), in_frame) == (
            if k == 0 {
                Seq::<u8>::empty()
            } else {
                frame_bytes(content).take(k)
            },
            k > 0,
            DecodeStep::NeedMore,
        ),
        decode_step(frame_bytes(content), in_frame) == (
            Seq::<u8>::empty(),
            false,
            frame_step(frame_bytes(content)),
        ),
{
    let f = frame_bytes(content);
    lemma_frame_marks(content);
    let n = f.len() as int;
    let t = f.take(k);
    assert(first_index_from(f, BOF, 0) == Some(0int));
    assert(f.skip(0) =~= f);
    lemma_first_index_skip(f, EOF, 1, n - 1);
    assert(first_index_from(f, EOF, n - 1) == Some(n - 1));
    assert(f.take(n) =~= f);
    assert(f.skip(n) =~= Seq::<u8>::empty());
    if k == 0 {
        assert(t =~= Seq::<u8>::empty());
    } else {
        assert(t[0] == BOF);
        assert(first_index_from(t, BOF, 0) == Some(0int));
        assert(t.skip(0) =~= t);
        lemma_first_index_skip(t, EOF, 1, k);
        assert(first_index_from(t, EOF, k) is None);
    }
}

/// Whatever lies between a BOF and the next EOF is cut off whole: a decoder
/// outside any frame that holds such a chunk followed by more bytes reports
/// what decoding the chunk gives (a frame, or the error of an invalid one) and
/// keeps exactly the bytes after it, so it recovers after an invalid frame.
pub proof fn lemma_stream_chunk_then_rest(chunk: Seq<u8>, rest: Seq<u8>)
    requires
        chunk.len() >= 2,
        chunk[0] == BOF,
        chunk.last() == EOF,
        forall|i: int| 1 <= i < chunk.len() - 1 ==> #[trigger] chunk[i] != EOF,
    ensures
        decode_step(chunk + rest, false) == (rest, false, frame_step(chunk)),
{
    let s = chunk + rest;
    let n = chunk.len() as int;
    assert(s[0] == BOF);
    assert(first_index_from(s, BOF, 0) == Some(0int));
    assert(s.skip(0) =~= s);
    assert forall|i: int| 1 <= i < n - 1 implies s[i] != EOF by {
        assert(s[i] == chunk[i]);
    }
    lemma_first_index_skip(s, EOF, 1, n - 1);
    assert(s[n - 1] == EOF);
    assert(first_index_from(s, EOF, n - 1) == Some(n - 1));
    assert(s.take(n) =~= chunk);
    assert(s.skip(n) =~= rest);
}

/// Every flags byte marks exactly one kind of packet: a whole message, or
/// the first, a middle or the last packet of a fragmented message.
pub proof fn lemma_fragment_kinds(flags: u8)
    ensures
        flags & FrameFlags::MASK == FrameFlags::SINGLE || flags & FrameFlags::MASK
            == FrameFlags::FIRST || flags & FrameFlags::MASK == FrameFlags::MIDDLE || flags
            & FrameFlags::MASK == FrameFlags::LAST,
        FrameFlags::SINGLE != FrameFlags::FIRST && FrameFlags::SINGLE != FrameFlags::MIDDLE
            && FrameFlags::SINGLE != FrameFlags::LAST && FrameFlags::FIRST != FrameFlags::MIDDLE
            && FrameFlags::FIRST != FrameFlags::LAST && FrameFlags::MIDDLE != FrameFlags::LAST,
{
    assert(flags & 0xC0u8 == 0xC0u8 || flags & 0xC0u8 == 0x80u8 || flags & 0xC0u8 == 0x00u8
        || flags & 0xC0u8 == 0x40u8) by (bit_vector);
}

/// The CRC of a frame's contents followed by their inverted CRC (little end
/// first, as a frame carries it) is always the residue `0xF0B8`: a receiver
/// may check a frame by running the CRC over contents and CRC together.
pub proof fn lemma_crc_residue(content: Seq<u8>)
    ensures
        crc16(content + le_bytes(!crc16(content))) == 0xF0B8u16,
{
    let c = crc16(content);
    let lo = (!c & 0xFFu16) as u8;
    let hi = (!c >> 8u16) as u8;
    let s = content + le_bytes(!c);
    assert(s.drop_last() =~= content.push(lo));
    assert(content.push(lo).drop_last() =~= content);
    assert((c ^ (lo as u16)) & 0xFFu16 == 0xFFu16) by (bit_vector)
        requires
            lo == (!c & 0xFFu16) as u8,
    ;
    let c1 = crc_step(c, lo);
    assert(c1 == (c >> 8u16) ^ 0x0f78u16);
    assert((((c >> 8u16) ^ 0x0f78u16) ^ (hi as u16)) & 0xFFu16 == 0x87u16) by (bit_vector)
        requires
            hi == (!c >> 8u16) as u8,
    ;
    assert(CRC_TABLE@[0x87] == 0xf0b7u16);
    assert((((c >> 8u16) ^ 0x0f78u16) >> 8u16) ^ 0xf0b7u16 == 0xF0B8u16) by (bit_vector);
    assert(crc_step(c1, hi) == 0xF0B8u16);
    assert(s.last() == hi);
    assert(crc16(content.push(lo)) == c1);
    assert(crc16(s) == crc_step(crc16(content.push(lo)), hi));
}

/// One bit of the CRC: shift right, and add the reflected polynomial
/// `0x8408` when the bit shifted out is set.
pub open spec fn crc_shift1(r: u16) -> u16 {
    if r & 1u16 == 1u16 {
        (r >> 1u16) ^ 0x8408u16
    } else {
        r >> 1u16
    }
}

/// Eight bits of the CRC.
pub open spec fn crc_shift8(r: u16) -> u16 {
    crc_shift1(crc_shift1(crc_shift1(crc_shift1(crc_shift1(crc_shift1(crc_shift1(crc_shift1(r))))))))
}

/// Eight bits of the CRC, worked out for every byte.
proof fn lemma_crc_shift8_of_bytes()
    by (bit_vector)
    ensures
        crc_shift8(0u16) == 0x0000u16,
        crc_shift8(1u16) == 0x1189u16,
        crc_shift8(2u16) == 0x2312u16,
        crc_shift8(3u16) == 0x329bu16,
        crc_shift8(4u16) == 0x4624u16,
        crc_shift8(5u16) == 0x57adu16,
        crc_shift8(6u16) == 0x6536u16,
        crc_shift8(7u16) == 0x74bfu16,
        crc_shift8(8u16) == 0x8c48u16,
        crc_shift8(9u16) == 0x9dc1u16,
        crc_shift8(10u16) == 0xaf5au16,
        crc_shift8(11u16) == 0xbed3u16,
        crc_shift8(12u16) == 0xca6cu16,
        crc_shift8(13u16) == 0xdbe5u16,
        crc_shift8(14u16) == 0xe97eu16,
        crc_shift8(15u16) == 0xf8f7u16,
        crc_shift8(16u16) == 0x1081u16,
        crc_shift8(17u16) == 0x0108u16,
        crc_shift8(18u16) == 0x3393u16,
        crc_shift8(19u16) == 0x221au16,
        crc_shift8(20u16) == 0x56a5u16,
        crc_shift8(21u16) == 0x472cu16,
        crc_shift8(22u16) == 0x75b7u16,
        crc_shift8(23u16) == 0x643eu16,
        crc_shift8(24u16) == 0x9cc9u16,
        crc_shift8(25u16) == 0x8d40u16,
        crc_shift8(26u16) == 0xbfdbu16,
        crc_shift8(27u16) == 0xae52u16,
        crc_shift8(28u16) == 0xdaedu16,
        crc_shift8(29u16) == 0xcb64u16,
        crc_shift8(30u16) == 0xf9ffu16,
        crc_shift8(31u16) == 0xe876u16,
        crc_shift8(32u16) == 0x2102u16,
        crc_shift8(33u16) == 0x308bu16,
        crc_shift8(34u16) == 0x0210u16,
        crc_shift8(35u16) == 0x1399u16,
        crc_shift8(36u16) == 0x6726u16,
        crc_shift8(37u16) == 0x76afu16,
        crc_shift8(38u16) == 0x4434u16,
        crc_shift8(39u16) == 0x55bdu16,
        crc_shift8(40u16) == 0xad4au16,
        crc_shift8(41u16) == 0xbcc3u16,
        crc_shift8(42u16) == 0x8e58u16,
        crc_shift8(43u16) == 0x9fd1u16,
        crc_shift8(44u16) == 0xeb6eu16,
        crc_shift8(45u16) == 0xfae7u16,
        crc_shift8(46u16) == 0xc87cu16,
        crc_shift8(47u16) == 0xd9f5u16,
        crc_shift8(48u16) == 0x3183u16,
        crc_shift8(49u16) == 0x200au16,
        crc_shift8(50u16) == 0x1291u16,
        crc_shift8(51u16) == 0x0318u16,
        crc_shift8(52u16) == 0x77a7u16,
        crc_shift8(53u16) == 0x662eu16,
        crc_shift8(54u16) == 0x54b5u16,
        crc_shift8(55u16) == 0x453cu16,
        crc_shift8(56u16) == 0xbdcbu16,
        crc_shift8(57u16) == 0xac42u16,
        crc_shift8(58u16) == 0x9ed9u16,
        crc_shift8(59u16) == 0x8f50u16,
        crc_shift8(60u16) == 0xfbefu16,
        crc_shift8(61u16) == 0xea66u16,
        crc_shift8(62u16) == 0xd8fdu16,
        crc_shift8(63u16) == 0xc974u16,
        crc_shift8(64u16) == 0x4204u16,
        crc_shift8(65u16) == 0x538du16,
        crc_shift8(66u16) == 0x6116u16,
        crc_shift8(67u16) == 0x709fu16,
        crc_shift8(68u16) == 0x0420u16,
        crc_shift8(69u16) == 0x15a9u16,
        crc_shift8(70u16) == 0x2732u16,
        crc_shift8(71u16) == 0x36bbu16,
        crc_shift8(72u16) == 0xce4cu16,
        crc_shift8(73u16) == 0xdfc5u16,
        crc_shift8(74u16) == 0xed5eu16,
        crc_shift8(75u16) == 0xfcd7u16,
        crc_shift8(76u16) == 0x8868u16,
        crc_shift8(77u16) == 0x99e1u16,
        crc_shift8(78u16) == 0xab7au16,
        crc_shift8(79u16) == 0xbaf3u16,
        crc_shift8(80u16) == 0x5285u16,
        crc_shift8(81u16) == 0x430cu16,
        crc_shift8(82u16) == 0x7197u16,
        crc_shift8(83u16) == 0x601eu16,
        crc_shift8(84u16) == 0x14a1u16,
        crc_shift8(85u16) == 0x0528u16,
        crc_shift8(86u16) == 0x37b3u16,
        crc_shift8(87u16) == 0x263au16,
        crc_shift8(88u16) == 0xdecdu16,
        crc_shift8(89u16) == 0xcf44u16,
        crc_shift8(90u16) == 0xfddfu16,
        crc_shift8(91u16) == 0xec56u16,
        crc_shift8(92u16) == 0x98e9u16,
        crc_shift8(93u16) == 0x8960u16,
        crc_shift8(94u16) == 0xbbfbu16,
        crc_shift8(95u16) == 0xaa72u16,
        crc_shift8(96u16) == 0x6306u16,
        crc_shift8(97u16) == 0x728fu16,
        crc_shift8(98u16) == 0x4014u16,
        crc_shift8(99u16) == 0x519du16,
        crc_shift8(100u16) == 0x2522u16,
        crc_shift8(101u16) == 0x34abu16,
        crc_shift8(102u16) == 0x0630u16,
        crc_shift8(103u16) == 0x17b9u16,
        crc_shift8(104u16) == 0xef4eu16,
        crc_shift8(105u16) == 0xfec7u16,
        crc_shift8(106u16) == 0xcc5cu16,
        crc_shift8(107u16) == 0xddd5u16,
        crc_shift8(108u16) == 0xa96au16,
        crc_shift8(109u16) == 0xb8e3u16,
        crc_shift8(110u16) == 0x8a78u16,
        crc_shift8(111u16) == 0x9bf1u16,
        crc_shift8(112u16) == 0x7387u16,
        crc_shift8(113u16) == 0x620eu16,
        crc_shift8(114u16) == 0x5095u16,
        crc_shift8(115u16) == 0x411cu16,
        crc_shift8(116u16) == 0x35a3u16,
        crc_shift8(117u16) == 0x242au16,
        crc_shift8(118u16) == 0x16b1u16,
        crc_shift8(119u16) == 0x0738u16,
        crc_shift8(120u16) == 0xffcfu16,
        crc_shift8(121u16) == 0xee46u16,
        crc_shift8(122u16) == 0xdcddu16,
        crc_shift8(123u16) == 0xcd54u16,
        crc_shift8(124u16) == 0xb9ebu16,
        crc_shift8(125u16) == 0xa862u16,
        crc_shift8(126u16) == 0x9af9u16,
        crc_shift8(127u16) == 0x8b70u16,
        crc_shift8(128u16) == 0x8408u16,
        crc_shift8(129u16) == 0x9581u16,
        crc_shift8(130u16) == 0xa71au16,
        crc_shift8(131u16) == 0xb693u16,
        crc_shift8(132u16) == 0xc22cu16,
        crc_shift8(133u16) == 0xd3a5u16,
        crc_shift8(134u16) == 0xe13eu16,
        crc_shift8(135u16) == 0xf0b7u16,
        crc_shift8(136u16) == 0x0840u16,
        crc_shift8(137u16) == 0x19c9u16,
        crc_shift8(138u16) == 0x2b52u16,
        crc_shift8(139u16) == 0x3adbu16,
        crc_shift8(140u16) == 0x4e64u16,
        crc_shift8(141u16) == 0x5fedu16,
        crc_shift8(142u16) == 0x6d76u16,
        crc_shift8(143u16) == 0x7cffu16,
        crc_shift8(144u16) == 0x9489u16,
        crc_shift8(145u16) == 0x8500u16,
        crc_shift8(146u16) == 0xb79bu16,
        crc_shift8(147u16) == 0xa612u16,
        crc_shift8(148u16) == 0xd2adu16,
        crc_shift8(149u16) == 0xc324u16,
        crc_shift8(150u16) == 0xf1bfu16,
        crc_shift8(151u16) == 0xe036u16,
        crc_shift8(152u16) == 0x18c1u16,
        crc_shift8(153u16) == 0x0948u16,
        crc_shift8(154u16) == 0x3bd3u16,
        crc_shift8(155u16) == 0x2a5au16,
        crc_shift8(156u16) == 0x5ee5u16,
        crc_shift8(157u16) == 0x4f6cu16,
        crc_shift8(158u16) == 0x7df7u16,
        crc_shift8(159u16) == 0x6c7eu16,
        crc_shift8(160u16) == 0xa50au16,
        crc_shift8(161u16) == 0xb483u16,
        crc_shift8(162u16) == 0x8618u16,
        crc_shift8(163u16) == 0x9791u16,
        crc_shift8(164u16) == 0xe32eu16,
        crc_shift8(165u16) == 0xf2a7u16,
        crc_shift8(166u16) == 0xc03cu16,
        crc_shift8(167u16) == 0xd1b5u16,
        crc_shift8(168u16) == 0x2942u16,
        crc_shift8(169u16) == 0x38cbu16,
        crc_shift8(170u16) == 0x0a50u16,
        crc_shift8(171u16) == 0x1bd9u16,
        crc_shift8(172u16) == 0x6f66u16,
        crc_shift8(173u16) == 0x7eefu16,
        crc_shift8(174u16) == 0x4c74u16,
        crc_shift8(175u16) == 0x5dfdu16,
        crc_shift8(176u16) == 0xb58bu16,
        crc_shift8(177u16) == 0xa402u16,
        crc_shift8(178u16) == 0x9699u16,
        crc_shift8(179u16) == 0x8710u16,
        crc_shift8(180u16) == 0xf3afu16,
        crc_shift8(181u16) == 0xe226u16,
        crc_shift8(182u16) == 0xd0bdu16,
        crc_shift8(183u16) == 0xc134u16,
        crc_shift8(184u16) == 0x39c3u16,
        crc_shift8(185u16) == 0x284au16,
        crc_shift8(186u16) == 0x1ad1u16,
        crc_shift8(187u16) == 0x0b58u16,
        crc_shift8(188u16) == 0x7fe7u16,
        crc_shift8(189u16) == 0x6e6eu16,
        crc_shift8(190u16) == 0x5cf5u16,
        crc_shift8(191u16) == 0x4d7cu16,
        crc_shift8(192u16) == 0xc60cu16,
        crc_shift8(193u16) == 0xd785u16,
        crc_shift8(194u16) == 0xe51eu16,
        crc_shift8(195u16) == 0xf497u16,
        crc_shift8(196u16) == 0x8028u16,
        crc_shift8(197u16) == 0x91a1u16,
        crc_shift8(198u16) == 0xa33au16,
        crc_shift8(199u16) == 0xb2b3u16,
        crc_shift8(200u16) == 0x4a44u16,
        crc_shift8(201u16) == 0x5bcdu16,
        crc_shift8(202u16) == 0x6956u16,
        crc_shift8(203u16) == 0x78dfu16,
        crc_shift8(204u16) == 0x0c60u16,
        crc_shift8(205u16) == 0x1de9u16,
        crc_shift8(206u16) == 0x2f72u16,
        crc_shift8(207u16) == 0x3efbu16,
        crc_shift8(208u16) == 0xd68du16,
        crc_shift8(209u16) == 0xc704u16,
        crc_shift8(210u16) == 0xf59fu16,
        crc_shift8(211u16) == 0xe416u16,
        crc_shift8(212u16) == 0x90a9u16,
        crc_shift8(213u16) == 0x8120u16,
        crc_shift8(214u16) == 0xb3bbu16,
        crc_shift8(215u16) == 0xa232u16,
        crc_shift8(216u16) == 0x5ac5u16,
        crc_shift8(217u16) == 0x4b4cu16,
        crc_shift8(218u16) == 0x79d7u16,
        crc_shift8(219u16) == 0x685eu16,
        crc_shift8(220u16) == 0x1ce1u16,
        crc_shift8(221u16) == 0x0d68u16,
        crc_shift8(222u16) == 0x3ff3u16,
        crc_shift8(223u16) == 0x2e7au16,
        crc_shift8(224u16) == 0xe70eu16,
        crc_shift8(225u16) == 0xf687u16,
        crc_shift8(226u16) == 0xc41cu16,
        crc_shift8(227u16) == 0xd595u16,
        crc_shift8(228u16) == 0xa12au16,
        crc_shift8(229u16) == 0xb0a3u16,
        crc_shift8(230u16) == 0x8238u16,
        crc_shift8(231u16) == 0x93b1u16,
        crc_shift8(232u16) == 0x6b46u16,
        crc_shift8(233u16) == 0x7acfu16,
        crc_shift8(234u16) == 0x4854u16,
        crc_shift8(235u16) == 0x59ddu16,
        crc_shift8(236u16) == 0x2d62u16,
        crc_shift8(237u16) == 0x3cebu16,
        crc_shift8(238u16) == 0x0e70u16,
        crc_shift8(239u16) == 0x1ff9u16,
        crc_shift8(240u16) == 0xf78fu16,
        crc_shift8(241u16) == 0xe606u16,
        crc_shift8(242u16) == 0xd49du16,
        crc_shift8(243u16) == 0xc514u16,
        crc_shift8(244u16) == 0xb1abu16,
        crc_shift8(245u16) == 0xa022u16,
        crc_shift8(246u16) == 0x92b9u16,
        crc_shift8(247u16) == 0x8330u16,
        crc_shift8(248u16) == 0x7bc7u16,
        crc_shift8(249u16) == 0x6a4eu16,
        crc_shift8(250u16) == 0x58d5u16,
        crc_shift8(251u16) == 0x495cu16,
        crc_shift8(252u16) == 0x3de3u16,
        crc_shift8(253u16) == 0x2c6au16,
        crc_shift8(254u16) == 0x1ef1u16,
        crc_shift8(255u16) == 0x0f78u16,
{
}

/// Entry `i` of the CRC table is `i` run through eight bits of the CRC.
pub proof fn lemma_crc_table_entry(i: int)
    requires
        0 <= i < 256,
    ensures
        CRC_TABLE@[i] == crc_shift8(i as u16),
{
    lemma_crc_shift8_of_bytes();
    if i < 16 {
        if i == 0 {
            assert(CRC_TABLE@[0] == crc_shift8(0u16));
        } else if i == 1 {
            assert(CRC_TABLE@[1] == crc_shift8(1u16));
        } else if i == 2 {
            assert(CRC_TABLE@[2] == crc_shift8(2u16));
        } else if i == 3 {
            assert(CRC_TABLE@[3] == crc_shift8(3u16));
        } else if i == 4 {
            assert(CRC_TABLE@[4] == crc_shift8(4u16));
        } else if i == 5 {
            assert(CRC_TABLE@[5] == crc_shift8(5u16));
        } else if i == 6 {
            assert(CRC_TABLE@[6] == crc_shift8(6u16));
        } else if i == 7 {
            assert(CRC_TABLE@[7] == crc_shift8(7u16));
        } else if i == 8 {
            assert(CRC_TABLE@[8] == crc_shift8(8u16));
        } else if i == 9 {
            assert(CRC_TABLE@[9] == crc_shift8(9u16));
        } else if i == 10 {
            assert(CRC_TABLE@[10] == crc_shift8(10u16));
        } else if i == 11 {
            assert(CRC_TABLE@[11] == crc_shift8(11u16));
        } else if i == 12 {
            assert(CRC_TABLE@[12] == crc_shift8(12u16));
        } else if i == 13 {
            assert(CRC_TABLE@[13] == crc_shift8(13u16));
        } else if i == 14 {
            assert(CRC_TABLE@[14] == crc_shift8(14u16));
        } else {
            assert(CRC_TABLE@[15] == crc_shift8(15u16));
        }
    } else if i < 32 {
        if i == 16 {
            assert(CRC_TABLE@[16] == crc_shift8(16u16));
        } else if i == 17 {
            assert(CRC_TABLE@[17] == crc_shift8(17u16));
        } else if i == 18 {
            assert(CRC_TABLE@[18] == crc_shift8(18u16));
        } else if i == 19 {
            assert(CRC_TABLE@[19] == crc_shift8(19u16));
        } else if i == 20 {
            assert(CRC_TABLE@[20] == crc_shift8(20u16));
        } else if i == 21 {
            assert(CRC_TABLE@[21] == crc_shift8(21u16));
        } else if i == 22 {
            assert(CRC_TABLE@[22] == crc_shift8(22u16));
        } else if i == 23 {
            assert(CRC_TABLE@[23] == crc_shift8(23u16));
        } else if i == 24 {
            assert(CRC_TABLE@[24] == crc_shift8(24u16));
        } else if i == 25 {
            assert(CRC_TABLE@[25] == crc_shift8(25u16));
        } else if i == 26 {
            assert(CRC_TABLE@[26] == crc_shift8(26u16));
        } else if i == 27 {
            assert(CRC_TABLE@[27] == crc_shift8(27u16));
        } else if i == 28 {
            assert(CRC_TABLE@[28] == crc_shift8(28u16));
        } else if i == 29 {
            assert(CRC_TABLE@[29] == crc_shift8(29u16));
        } else if i == 30 {
            assert(CRC_TABLE@[30] == crc_shift8(30u16));
        } else {
            assert(CRC_TABLE@[31] == crc_shift8(31u16));
        }
    } else if i < 48 {
        if i == 32 {
            assert(CRC_TABLE@[32] == crc_shift8(32u16));
        } else if i == 33 {
            assert(CRC_TABLE@[33] == crc_shift8(33u16));
        } else if i == 34 {
            assert(CRC_TABLE@[34] == crc_shift8(34u16));
        } else if i == 35 {
            assert(CRC_TABLE@[35] == crc_shift8(35u16));
        } else if i == 36 {
            assert(CRC_TABLE@[36] == crc_shift8(36u16));
        } else if i == 37 {
            assert(CRC_TABLE@[37] == crc_shift8(37u16));
        } else if i == 38 {
            assert(CRC_TABLE@[38] == crc_shift8(38u16));
        } else if i == 39 {
            assert(CRC_TABLE@[39] == crc_shift8(39u16));
        } else if i == 40 {
            assert(CRC_TABLE@[40] == crc_shift8(40u16));
        } else if i == 41 {
            assert(CRC_TABLE@[41] == crc_shift8(41u16));
        } else if i == 42 {
            assert(CRC_TABLE@[42] == crc_shift8(42u16));
        } else if i == 43 {
            assert(CRC_TABLE@[43] == crc_shift8(43u16));
        } else if i == 44 {
            assert(CRC_TABLE@[44] == crc_shift8(44u16));
        } else if i == 45 {
            assert(CRC_TABLE@[45] == crc_shift8(45u16));
        } else if i == 46 {
            assert(CRC_TABLE@[46] == crc_shift8(46u16));
        } else {
            assert(CRC_TABLE@[47] == crc_shift8(47u16));
        }
    } else if i < 64 {
        if i == 48 {
            assert(CRC_TABLE@[48] == crc_shift8(48u16));
        } else if i == 49 {
            assert(CRC_TABLE@[49] == crc_shift8(49u16));
        } else if i == 50 {
            assert(CRC_TABLE@[50] == crc_shift8(50u16));
        } else if i == 51 {
            assert(CRC_TABLE@[51] == crc_shift8(51u16));
        } else if i == 52 {
            assert(CRC_TABLE@[52] == crc_shift8(52u16));
        } else if i == 53 {
            assert(CRC_TABLE@[53] == crc_shift8(53u16));
        } else if i == 54 {
            assert(CRC_TABLE@[54] == crc_shift8(54u16));
        } else if i == 55 {
            assert(CRC_TABLE@[55] == crc_shift8(55u16));
        } else if i == 56 {
            assert(CRC_TABLE@[56] == crc_shift8(56u16));
        } else if i == 57 {
            assert(CRC_TABLE@[57] == crc_shift8(57u16));
        } else if i == 58 {
            assert(CRC_TABLE@[58] == crc_shift8(58u16));
        } else if i == 59 {
            assert(CRC_TABLE@[59] == crc_shift8(59u16));
        } else if i == 60 {
            assert(CRC_TABLE@[60] == crc_shift8(60u16));
        } else if i == 61 {
            assert(CRC_TABLE@[61] == crc_shift8(61u16));
        } else if i == 62 {
            assert(CRC_TABLE@[62] == crc_shift8(62u16));
        } else {
            assert(CRC_TABLE@[63] == crc_shift8(63u16));
        }
    } else if i < 80 {
        if i == 64 {
            assert(CRC_TABLE@[64] == crc_shift8(64u16));
        } else if i == 65 {
            assert(CRC_TABLE@[65] == crc_shift8(65u16));
        } else if i == 66 {
            assert(CRC_TABLE@[66] == crc_shift8(66u16));
        } else if i == 67 {
            assert(CRC_TABLE@[67] == crc_shift8(67u16));
        } else if i == 68 {
            assert(CRC_TABLE@[68] == crc_shift8(68u16));
        } else if i == 69 {
            assert(CRC_TABLE@[69] == crc_shift8(69u16));
        } else if i == 70 {
            assert(CRC_TABLE@[70] == crc_shift8(70u16));
        } else if i == 71 {
            assert(CRC_TABLE@[71] == crc_shift8(71u16));
        } else if i == 72 {
            assert(CRC_TABLE@[72] == crc_shift8(72u16));
        } else if i == 73 {
            assert(CRC_TABLE@[73] == crc_shift8(73u16));
        } else if i == 74 {
            assert(CRC_TABLE@[74] == crc_shift8(74u16));
        } else if i == 75 {
            assert(CRC_TABLE@[75] == crc_shift8(75u16));
        } else if i == 76 {
            assert(CRC_TABLE@[76] == crc_shift8(76u16));
        } else if i == 77 {
            assert(CRC_TABLE@[77] == crc_shift8(77u16));
        } else if i == 78 {
            assert(CRC_TABLE@[78] == crc_shift8(78u16));
        } else {
            assert(CRC_TABLE@[79] == crc_shift8(79u16));
        }
    } else if i < 96 {
        if i == 80 {
            assert(CRC_TABLE@[80] == crc_shift8(80u16));
        } else if i == 81 {
            assert(CRC_TABLE@[81] == crc_shift8(81u16));
        } else if i == 82 {
            assert(CRC_TABLE@[82] == crc_shift8(82u16));
        } else if i == 83 {
            assert(CRC_TABLE@[83] == crc_shift8(83u16));
        } else if i == 84 {
            assert(CRC_TABLE@[84] == crc_shift8(84u16));
        } else if i == 85 {
            assert(CRC_TABLE@[85] == crc_shift8(85u16));
        } else if i == 86 {
            assert(CRC_TABLE@[86] == crc_shift8(86u16));
        } else if i == 87 {
            assert(CRC_TABLE@[87] == crc_shift8(87u16));
        } else if i == 88 {
            assert(CRC_TABLE@[88] == crc_shift8(88u16));
        } else if i == 89 {
            assert(CRC_TABLE@[89] == crc_shift8(89u16));
        } else if i == 90 {
            assert(CRC_TABLE@[90] == crc_shift8(90u16));
        } else if i == 91 {
            assert(CRC_TABLE@[91] == crc_shift8(91u16));
        } else if i == 92 {
            assert(CRC_TABLE@[92] == crc_shift8(92u16));
        } else if i == 93 {
            assert(CRC_TABLE@[93] == crc_shift8(93u16));
        } else if i == 94 {
            assert(CRC_TABLE@[94] == crc_shift8(94u16));
        } else {
            assert(CRC_TABLE@[95] == crc_shift8(95u16));
        }
    } else if i < 112 {
        if i == 96 {
            assert(CRC_TABLE@[96] == crc_shift8(96u16));
        } else if i == 97 {
            assert(CRC_TABLE@[97] == crc_shift8(97u16));
        } else if i == 98 {
            assert(CRC_TABLE@[98] == crc_shift8(98u16));
        } else if i == 99 {
            assert(CRC_TABLE@[99] == crc_shift8(99u16));
        } else if i == 100 {
            assert(CRC_TABLE@[100] == crc_shift8(100u16));
        } else if i == 101 {
            assert(CRC_TABLE@[101] == crc_shift8(101u16));
        } else if i == 102 {
            assert(CRC_TABLE@[102] == crc_shift8(102u16));
        } else if i == 103 {
            assert(CRC_TABLE@[103] == crc_shift8(103u16));
        } else if i == 104 {
            assert(CRC_TABLE@[104] == crc_shift8(104u16));
        } else if i == 105 {
            assert(CRC_TABLE@[105] == crc_shift8(105u16));
        } else if i == 106 {
            assert(CRC_TABLE@[106] == crc_shift8(106u16));
        } else if i == 107 {
            assert(CRC_TABLE@[107] == crc_shift8(107u16));
        } else if i == 108 {
            assert(CRC_TABLE@[108] == crc_shift8(108u16));
        } else if i == 109 {
            assert(CRC_TABLE@[109] == crc_shift8(109u16));
        } else if i == 110 {
            assert(CRC_TABLE@[110] == crc_shift8(110u16));
        } else {
            assert(CRC_TABLE@[111] == crc_shift8(111u16));
        }
    } else if i < 128 {
        if i == 112 {
            assert(CRC_TABLE@[112] == crc_shift8(112u16));
        } else if i == 113 {
            assert(CRC_TABLE@[113] == crc_shift8(113u16));
        } else if i == 114 {
            assert(CRC_TABLE@[114] == crc_shift8(114u16));
        } else if i == 115 {
            assert(CRC_TABLE@[115] == crc_shift8(115u16));
        } else if i == 116 {
            assert(CRC_TABLE@[116] == crc_shift8(116u16));
        } else if i == 117 {
            assert(CRC_TABLE@[117] == crc_shift8(117u16));
        } else if i == 118 {
            assert(CRC_TABLE@[118] == crc_shift8(118u16));
        } else if i == 119 {
            assert(CRC_TABLE@[119] == crc_shift8(119u16));
        } else if i == 120 {
            assert(CRC_TABLE@[120] == crc_shift8(120u16));
        } else if i == 121 {
            assert(CRC_TABLE@[121] == crc_shift8(121u16));
        } else if i == 122 {
            assert(CRC_TABLE@[122] == crc_shift8(122u16));
        } else if i == 123 {
            assert(CRC_TABLE@[123] == crc_shift8(123u16));
        } else if i == 124 {
            assert(CRC_TABLE@[124] == crc_shift8(124u16));
        } else if i == 125 {
            assert(CRC_TABLE@[125] == crc_shift8(125u16));
        } else if i == 126 {
            assert(CRC_TABLE@[126] == crc_shift8(126u16));
        } else {
            assert(CRC_TABLE@[127] == crc_shift8(127u16));
        }
    } else if i < 144 {
        if i == 128 {
            assert(CRC_TABLE@[128] == crc_shift8(128u16));
        } else if i == 129 {
            assert(CRC_TABLE@[129] == crc_shift8(129u16));
        } else if i == 130 {
            assert(CRC_TABLE@[130] == crc_shift8(130u16));
        } else if i == 131 {
            assert(CRC_TABLE@[131] == crc_shift8(131u16));
        } else if i == 132 {
            assert(CRC_TABLE@[132] == crc_shift8(132u16));
        } else if i == 133 {
            assert(CRC_TABLE@[133] == crc_shift8(133u16));
        } else if i == 134 {
            assert(CRC_TABLE@[134] == crc_shift8(134u16));
        } else if i == 135 {
            assert(CRC_TABLE@[135] == crc_shift8(135u16));
        } else if i == 136 {
            assert(CRC_TABLE@[136] == crc_shift8(136u16));
        } else if i == 137 {
            assert(CRC_TABLE@[137] == crc_shift8(137u16));
        } else if i == 138 {
            assert(CRC_TABLE@[138] == crc_shift8(138u16));
        } else if i == 139 {
            assert(CRC_TABLE@[139] == crc_shift8(139u16));
        } else if i == 140 {
            assert(CRC_TABLE@[140] == crc_shift8(140u16));
        } else if i == 141 {
            assert(CRC_TABLE@[141] == crc_shift8(141u16));
        } else if i == 142 {
            assert(CRC_TABLE@[142] == crc_shift8(142u16));
        } else {
            assert(CRC_TABLE@[143] == crc_shift8(143u16));
        }
    } else if i < 160 {
        if i == 144 {
            assert(CRC_TABLE@[144] == crc_shift8(144u16));
        } else if i == 145 {
            assert(CRC_TABLE@[145] == crc_shift8(145u16));
        } else if i == 146 {
            assert(CRC_TABLE@[146] == crc_shift8(146u16));
        } else if i == 147 {
            assert(CRC_TABLE@[147] == crc_shift8(147u16));
        } else if i == 148 {
            assert(CRC_TABLE@[148] == crc_shift8(148u16));
        } else if i == 149 {
            assert(CRC_TABLE@[149] == crc_shift8(149u16));
        } else if i == 150 {
            assert(CRC_TABLE@[150] == crc_shift8(150u16));
        } else if i == 151 {
            assert(CRC_TABLE@[151] == crc_shift8(151u16));
        } else if i == 152 {
            assert(CRC_TABLE@[152] == crc_shift8(152u16));
        } else if i == 153 {
            assert(CRC_TABLE@[153] == crc_shift8(153u16));
        } else if i == 154 {
            assert(CRC_TABLE@[154] == crc_shift8(154u16));
        } else if i == 155 {
            assert(CRC_TABLE@[155] == crc_shift8(155u16));
        } else if i == 156 {
            assert(CRC_TABLE@[156] == crc_shift8(156u16));
        } else if i == 157 {
            assert(CRC_TABLE@[157] == crc_shift8(157u16));
        } else if i == 158 {
            assert(CRC_TABLE@[158] == crc_shift8(158u16));
        } else {
            assert(CRC_TABLE@[159] == crc_shift8(159u16));
        }
    } else if i < 176 {
        if i == 160 {
            assert(CRC_TABLE@[160] == crc_shift8(160u16));
        } else if i == 161 {
            assert(CRC_TABLE@[161] == crc_shift8(161u16));
        } else if i == 162 {
            assert(CRC_TABLE@[162] == crc_shift8(162u16));
        } else if i == 163 {
            assert(CRC_TABLE@[163] == crc_shift8(163u16));
        } else if i == 164 {
            assert(CRC_TABLE@[164] == crc_shift8(164u16));
        } else if i == 165 {
            assert(CRC_TABLE@[165] == crc_shift8(165u16));
        } else if i == 166 {
            assert(CRC_TABLE@[166] == crc_shift8(166u16));
        } else if i == 167 {
            assert(CRC_TABLE@[167] == crc_shift8(167u16));
        } else if i == 168 {
            assert(CRC_TABLE@[168] == crc_shift8(168u16));
        } else if i == 169 {
            assert(CRC_TABLE@[169] == crc_shift8(169u16));
        } else if i == 170 {
            assert(CRC_TABLE@[170] == crc_shift8(170u16));
        } else if i == 171 {
            assert(CRC_TABLE@[171] == crc_shift8(171u16));
        } else if i == 172 {
            assert(CRC_TABLE@[172] == crc_shift8(172u16));
        } else if i == 173 {
            assert(CRC_TABLE@[173] == crc_shift8(173u16));
        } else if i == 174 {
            assert(CRC_TABLE@[174] == crc_shift8(174u16));
        } else {
            assert(CRC_TABLE@[175] == crc_shift8(175u16));
        }
    } else if i < 192 {
        if i == 176 {
            assert(CRC_TABLE@[176] == crc_shift8(176u16));
        } else if i == 177 {
            assert(CRC_TABLE@[177] == crc_shift8(177u16));
        } else if i == 178 {
            assert(CRC_TABLE@[178] == crc_shift8(178u16));
        } else if i == 179 {
            assert(CRC_TABLE@[179] == crc_shift8(179u16));
        } else if i == 180 {
            assert(CRC_TABLE@[180] == crc_shift8(180u16));
        } else if i == 181 {
            assert(CRC_TABLE@[181] == crc_shift8(181u16));
        } else if i == 182 {
            assert(CRC_TABLE@[182] == crc_shift8(182u16));
        } else if i == 183 {
            assert(CRC_TABLE@[183] == crc_shift8(183u16));
        } else if i == 184 {
            assert(CRC_TABLE@[184] == crc_shift8(184u16));
        } else if i == 185 {
            assert(CRC_TABLE@[185] == crc_shift8(185u16));
        } else if i == 186 {
            assert(CRC_TABLE@[186] == crc_shift8(186u16));
        } else if i == 187 {
            assert(CRC_TABLE@[187] == crc_shift8(187u16));
        } else if i == 188 {
            assert(CRC_TABLE@[188] == crc_shift8(188u16));
        } else if i == 189 {
            assert(CRC_TABLE@[189] == crc_shift8(189u16));
        } else if i == 190 {
            assert(CRC_TABLE@[190] == crc_shift8(190u16));
        } else {
            assert(CRC_TABLE@[191] == crc_shift8(191u16));
        }
    } else if i < 208 {
        if i == 192 {
            assert(CRC_TABLE@[192] == crc_shift8(192u16));
        } else if i == 193 {
            assert(CRC_TABLE@[193] == crc_shift8(193u16));
        } else if i == 194 {
            assert(CRC_TABLE@[194] == crc_shift8(194u16));
        } else if i == 195 {
            assert(CRC_TABLE@[195] == crc_shift8(195u16));
        } else if i == 196 {
            assert(CRC_TABLE@[196] == crc_shift8(196u16));
        } else if i == 197 {
            assert(CRC_TABLE@[197] == crc_shift8(197u16));
        } else if i == 198 {
            assert(CRC_TABLE@[198] == crc_shift8(198u16));
        } else if i == 199 {
            assert(CRC_TABLE@[199] == crc_shift8(199u16));
        } else if i == 200 {
            assert(CRC_TABLE@[200] == crc_shift8(200u16));
        } else if i == 201 {
            assert(CRC_TABLE@[201] == crc_shift8(201u16));
        } else if i == 202 {
            assert(CRC_TABLE@[202] == crc_shift8(202u16));
        } else if i == 203 {
            assert(CRC_TABLE@[203] == crc_shift8(203u16));
        } else if i == 204 {
            assert(CRC_TABLE@[204] == crc_shift8(204u16));
        } else if i == 205 {
            assert(CRC_TABLE@[205] == crc_shift8(205u16));
        } else if i == 206 {
            assert(CRC_TABLE@[206] == crc_shift8(206u16));
        } else {
            assert(CRC_TABLE@[207] == crc_shift8(207u16));
        }
    } else if i < 224 {
        if i == 208 {
            assert(CRC_TABLE@[208] == crc_shift8(208u16));
        } else if i == 209 {
            assert(CRC_TABLE@[209] == crc_shift8(209u16));
        } else if i == 210 {
            assert(CRC_TABLE@[210] == crc_shift8(210u16));
        } else if i == 211 {
            assert(CRC_TABLE@[211] == crc_shift8(211u16));
        } else if i == 212 {
            assert(CRC_TABLE@[212] == crc_shift8(212u16));
        } else if i == 213 {
            assert(CRC_TABLE@[213] == crc_shift8(213u16));
        } else if i == 214 {
            assert(CRC_TABLE@[214] == crc_shift8(214u16));
        } else if i == 215 {
            assert(CRC_TABLE@[215] == crc_shift8(215u16));
        } else if i == 216 {
            assert(CRC_TABLE@[216] == crc_shift8(216u16));
        } else if i == 217 {
            assert(CRC_TABLE@[217] == crc_shift8(217u16));
        } else if i == 218 {
            assert(CRC_TABLE@[218] == crc_shift8(218u16));
        } else if i == 219 {
            assert(CRC_TABLE@[219] == crc_shift8(219u16));
        } else if i == 220 {
            assert(CRC_TABLE@[220] == crc_shift8(220u16));
        } else if i == 221 {
            assert(CRC_TABLE@[221] == crc_shift8(221u16));
        } else if i == 222 {
            assert(CRC_TABLE@[222] == crc_shift8(222u16));
        } else {
            assert(CRC_TABLE@[223] == crc_shift8(223u16));
        }
    } else if i < 240 {
        if i == 224 {
            assert(CRC_TABLE@[224] == crc_shift8(224u16));
        } else if i == 225 {
            assert(CRC_TABLE@[225] == crc_shift8(225u16));
        } else if i == 226 {
            assert(CRC_TABLE@[226] == crc_shift8(226u16));
        } else if i == 227 {
            assert(CRC_TABLE@[227] == crc_shift8(227u16));
        } else if i == 228 {
            assert(CRC_TABLE@[228] == crc_shift8(228u16));
        } else if i == 229 {
            assert(CRC_TABLE@[229] == crc_shift8(229u16));
        } else if i == 230 {
            assert(CRC_TABLE@[230] == crc_shift8(230u16));
        } else if i == 231 {
            assert(CRC_TABLE@[231] == crc_shift8(231u16));
        } else if i == 232 {
            assert(CRC_TABLE@[232] == crc_shift8(232u16));
        } else if i == 233 {
            assert(CRC_TABLE@[233] == crc_shift8(233u16));
        } else if i == 234 {
            assert(CRC_TABLE@[234] == crc_shift8(234u16));
        } else if i == 235 {
            assert(CRC_TABLE@[235] == crc_shift8(235u16));
        } else if i == 236 {
            assert(CRC_TABLE@[236] == crc_shift8(236u16));
        } else if i == 237 {
            assert(CRC_TABLE@[237] == crc_shift8(237u16));
        } else if i == 238 {
            assert(CRC_TABLE@[238] == crc_shift8(238u16));
        } else {
            assert(CRC_TABLE@[239] == crc_shift8(239u16));
        }
    } else if i < 256 {
        if i == 240 {
            assert(CRC_TABLE@[240] == crc_shift8(240u16));
        } else if i == 241 {
            assert(CRC_TABLE@[241] == crc_shift8(241u16));
        } else if i == 242 {
            assert(CRC_TABLE@[242] == crc_shift8(242u16));
        } else if i == 243 {
            assert(CRC_TABLE@[243] == crc_shift8(243u16));
        } else if i == 244 {
            assert(CRC_TABLE@[244] == crc_shift8(244u16));
        } else if i == 245 {
            assert(CRC_TABLE@[245] == crc_shift8(245u16));
        } else if i == 246 {
            assert(CRC_TABLE@[246] == crc_shift8(246u16));
        } else if i == 247 {
            assert(CRC_TABLE@[247] == crc_shift8(247u16));
        } else if i == 248 {
            assert(CRC_TABLE@[248] == crc_shift8(248u16));
        } else if i == 249 {
            assert(CRC_TABLE@[249] == crc_shift8(249u16));
        } else if i == 250 {
            assert(CRC_TABLE@[250] == crc_shift8(250u16));
        } else if i == 251 {
            assert(CRC_TABLE@[251] == crc_shift8(251u16));
        } else if i == 252 {
            assert(CRC_TABLE@[252] == crc_shift8(252u16));
        } else if i == 253 {
            assert(CRC_TABLE@[253] == crc_shift8(253u16));
        } else if i == 254 {
            assert(CRC_TABLE@[254] == crc_shift8(254u16));
        } else {
            assert(CRC_TABLE@[255] == crc_shift8(255u16));
        }
    }
}

/// The table-driven step is the bitwise CRC: one byte of the table-driven
/// CRC is the byte added into the register followed by eight bits of the CRC.
pub proof fn lemma_crc_step_bitwise(crc: u16, b: u8)
    ensures
        crc_step(crc, b) == crc_shift8(crc ^ (b as u16)),
{
    let x = crc ^ (b as u16);
    assert(x & 0xFFu16 < 256u16) by (bit_vector);
    lemma_crc_table_entry((x & 0xFFu16) as int);
    assert(x & 0xFFu16 == (crc ^ (b as u16)) & 0xFFu16);
    assert((x >> 8u16) ^ crc_shift8(x & 0xFFu16) == crc_shift8(x)) by (bit_vector);
    assert(crc >> 8u16 == x >> 8u16) by (bit_vector)
        requires
            x == crc ^ (b as u16),
    ;
}

/// One byte of the CRC loses nothing: when two steps end in the same
/// register, they started from the same register exactly when they added the
/// same byte.
pub proof fn lemma_crc_step_injective(c1: u16, b1: u8, c2: u16, b2: u8)
    ensures
        crc_step(c1, b1) == crc_step(c2, b2) ==> (c1 == c2 <==> b1 == b2),
{
    lemma_crc_step_bitwise(c1, b1);
    lemma_crc_step_bitwise(c2, b2);
    let x1 = c1 ^ (b1 as u16);
    let x2 = c2 ^ (b2 as u16);
    assert(crc_shift8(x1) == crc_shift8(x2) ==> x1 == x2) by (bit_vector);
    assert(x1 == x2 ==> (c1 == c2 <==> b1 == b2)) by (bit_vector)
        requires
            x1 == c1 ^ (b1 as u16),
            x2 == c2 ^ (b2 as u16),
    ;
}

/// The CRC catches every change of a single byte: changing one byte of a
/// sequence always changes its CRC.
pub proof fn lemma_crc_single_change(s: Seq<u8>, i: int, x: u8)
    requires
        0 <= i < s.len(),
        x != s[i],
    ensures
        crc16(s.update(i, x)) != crc16(s),
    decreases s.len(),
{
    let t = s.update(i, x);
    if i == s.len() - 1 {
        assert(t.drop_last() =~= s.drop_last());
        lemma_crc_step_injective(crc16(s.drop_last()), x, crc16(s.drop_last()), s.last());
    } else {
        assert(t.drop_last() =~= s.drop_last().update(i, x));
        lemma_crc_single_change(s.drop_last(), i, x);
        lemma_crc_step_injective(crc16(t.drop_last()), s.last(), crc16(s.drop_last()), s.last());
    }
}

/// The bytes on the wire of a frame whose unescaped contents and CRC are
/// `body`: BOF, `body` escaped, EOF.
pub open spec fn framed(body: Seq<u8>) -> Seq<u8> {
    seq![BOF] + escape(body) + seq![EOF]
}

/// A frame with one byte changed is refused: when any single byte of a
/// frame's contents or of its CRC differs from what was sent, decoding the
/// frame fails on the CRC check.
pub proof fn lemma_frame_single_change(content: Seq<u8>, i: int, x: u8)
    requires
        content.len() >= 2,
        0 <= i < content.len() + 2,
        x != (content + le_bytes(!crc16(content)))[i],
    ensures
        ({
            let body = (content + le_bytes(!crc16(content))).update(i, x);
            let received = le_u16(body[body.len() - 2], body[body.len() - 1]);
            let expected = !crc16(body.take(body.len() - 2));
            &&& received != expected
            &&& decode_frame(framed(body)) == std::result::Result::<FrameView, Seq<char>>::Err(
                crc_mismatch_text(expected, received),
            )
        }),
{
    let crc = !crc16(content);
    let sent = content + le_bytes(crc);
    let body = sent.update(i, x);
    let n = body.len() as int;
    lemma_escape_len(body);
    lemma_unescape_escape(body);
    lemma_le_bytes_roundtrip(crc);
    let f = framed(body);
    assert(f.subrange(1, f.len() - 1) =~= escape(body));
    let received = le_u16(body[n - 2], body[n - 1]);
    if i < n - 2 {
        assert(body.take(n - 2) =~= content.update(i, x));
        assert(content[i] == sent[i]);
        lemma_crc_single_change(content, i, x);
        assert(body[n - 2] == le_bytes(crc)[0]);
        assert(body[n - 1] == le_bytes(crc)[1]);
        assert(received == crc);
        let c0 = crc16(content);
        let c1 = crc16(content.update(i, x));
        assert(!c1 != crc) by (bit_vector)
            requires
                c1 != c0,
                crc == !c0,
        ;
    } else {
        assert(body.take(n - 2) =~= content);
        let lo = le_bytes(crc)[0];
        let hi = le_bytes(crc)[1];
        assert(le_u16(lo, hi) == crc);
        if i == n - 2 {
            assert(body[n - 2] == x && x != lo && body[n - 1] == hi);
            assert(x != lo ==> le_u16(x, hi) != le_u16(lo, hi)) by (bit_vector);
        } else {
            assert(body[n - 1] == x && x != hi && body[n - 2] == lo);
            assert(x != hi ==> le_u16(lo, x) != le_u16(lo, hi)) by (bit_vector);
        }
    }
}

/// A corrupted frame in a stream is refused and skipped: a decoder outside
/// any frame that holds a frame with one byte changed, followed by more bytes,
/// reports the CRC mismatch and keeps exactly the bytes after that frame.
pub proof fn lemma_stream_corrupt_frame_then_rest(content: Seq<u8>, i: int, x: u8, rest: Seq<u8>)
    requires
        content.len() >= 2,
        0 <= i < content.len() + 2,
        x != (content + le_bytes(!crc16(content)))[i],
    ensures
        ({
            let body = (content + le_bytes(!crc16(content))).update(i, x);
            let (held, in_frame, step) = decode_step(framed(body) + rest, false);
            &&& held == rest
            &&& !in_frame
            &&& step is Failed
        }),
{
    let body = (content + le_bytes(!crc16(content))).update(i, x);
    lemma_frame_single_change(content, i, x);
    lemma_framed_is_chunk(body);
    lemma_stream_chunk_then_rest(framed(body), rest);
}

/// Whether `c` is what the decoder cuts off as one frame: a BOF, then bytes
/// that hold no EOF, then an EOF.
pub open spec fn is_chunk(c: Seq<u8>) -> bool {
    &&& c.len() >= 2
    &&& c[0] == BOF
    &&& c.last() == EOF
    &&& forall|i: int| 1 <= i < c.len() - 1 ==> #[trigger] c[i] != EOF
}

/// Any escaped bytes between BOF and EOF make a chunk.
pub proof fn lemma_framed_is_chunk(body: Seq<u8>)
    ensures
        is_chunk(framed(body)),
{
    lemma_escape_no_frame_marks(body);
    let f = framed(body);
    let e = escape(body);
    assert forall|i: int| 1 <= i < f.len() - 1 implies #[trigger] f[i] != EOF by {
        assert(f[i] == e[i - 1]);
    }
}

/// The bytes of a frame are its contents and CRC, escaped, between BOF and
/// EOF.
pub proof fn lemma_frame_bytes_framed(content: Seq<u8>)
    ensures
        frame_bytes(content) == framed(content + le_bytes(!crc16(content))),
{
    lemma_escape_concat(content, le_bytes(!crc16(content)));
    assert(frame_bytes(content) =~= framed(content + le_bytes(!crc16(content))));
}

/// What a search finds: an index in range that holds `b`, with no `b` before
/// it from `start` on; or, when it finds nothing, no `b` from `start` on.
pub proof fn lemma_first_index_found(s: Seq<u8>, b: u8, start: int)
    requires
        0 <= start,
    ensures
        first_index_from(s, b, start) matches Some(i) ==> start <= i < s.len() && s[i] == b
            && forall|j: int| start <= j < i ==> s[j] != b,
        first_index_from(s, b, start) is None ==> forall|j: int| start <= j < s.len() ==> s[j] != b,
    decreases s.len() - start,
{
    if start < s.len() && s[start] != b {
        lemma_first_index_found(s, b, start + 1);
    }
}

/// A search that finds `b` in `s` finds it at the same place once more bytes
/// follow.
pub proof fn lemma_first_index_extend(s: Seq<u8>, more: Seq<u8>, b: u8, start: int)
    requires
        0 <= start,
        first_index_from(s, b, start) is Some,
    ensures
        first_index_from(s + more, b, start) == first_index_from(s, b, start),
    decreases s.len() - start,
{
    if start < s.len() && s[start] != b {
        lemma_first_index_extend(s, more, b, start + 1);
    }
}

/// Searching past the end of `s` in `s + more` is searching `more`.
pub proof fn lemma_first_index_shift(s: Seq<u8>, more: Seq<u8>, b: u8, k: int)
    requires
        0 <= k,
    ensures
        first_index_from(s + more, b, s.len() + k) == match first_index_from(more, b, k) {
            Some(i) => Some(s.len() + i),
            None => None::<int>,
        },
    decreases more.len() - k,
{
    if k < more.len() {
        assert((s + more)[s.len() + k] == more[k]);
        if more[k] != b {
            lemma_first_index_shift(s, more, b, k + 1);
        }
    }
}

/// A search from `start` in `s + more` that finds nothing in `s` searches
/// `more`.
pub proof fn lemma_first_index_past(s: Seq<u8>, more: Seq<u8>, b: u8, start: int)
    requires
        0 <= start <= s.len(),
        first_index_from(s, b, start) is None,
    ensures
        first_index_from(s + more, b, start) == match first_index_from(more, b, 0) {
            Some(i) => Some(s.len() + i),
            None => None::<int>,
        },
{
    lemma_first_index_found(s, b, start);
    let t = s + more;
    assert forall|j: int| start <= j < s.len() implies t[j] != b by {
        assert(t[j] == s[j]);
    }
    lemma_first_index_skip(t, b, start, s.len() as int);
    lemma_first_index_shift(s, more, b, 0);
}

/// Inside a frame, more bytes after those held change nothing once the
/// frame's EOF is held; before that, the decoder keeps waiting on all of them.
proof fn lemma_decode_step_in_frame_append(buf: Seq<u8>, more: Seq<u8>)
    ensures
        ({
            let (held, in_frame, step) = decode_step(buf, true);
            if step is NeedMore {
                held == buf && in_frame
            } else {
                decode_step(buf + more, true) == (held + more, in_frame, step)
            }
        }),
{
    match first_index_from(buf, EOF, 1) {
        Some(end) => {
            lemma_first_index_found(buf, EOF, 1);
            lemma_first_index_extend(buf, more, EOF, 1);
            assert((buf + more).take(end + 1) =~= buf.take(end + 1));
            assert((buf + more).skip(end + 1) =~= buf.skip(end + 1) + more);
        },
        None => {},
    }
}

/// Decoding is not disturbed by bytes that arrive later: a step that reports
/// a frame or an error reports the same with more bytes held, which it keeps
/// after what it held before; a step that asks for more leaves a decoder that
/// treats the bytes that follow as the first decoder would.
pub proof fn lemma_decode_step_append(buf: Seq<u8>, in_frame: bool, more: Seq<u8>)
    ensures
        ({
            let (held, inside, step) = decode_step(buf, in_frame);
            if step is NeedMore {
                decode_step(buf + more, in_frame) == decode_step(held + more, inside)
            } else {
                decode_step(buf + more, in_frame) == (held + more, inside, step)
            }
        }),
{
    if in_frame {
        lemma_decode_step_in_frame_append(buf, more);
    } else {
        match first_index_from(buf, BOF, 0) {
            Some(p) => {
                lemma_first_index_found(buf, BOF, 0);
                lemma_first_index_extend(buf, more, BOF, 0);
                let b = buf.skip(p);
                assert((buf + more).skip(p) =~= b + more);
                lemma_decode_step_in_frame_append(b, more);
            },
            None => {
                lemma_first_index_past(buf, more, BOF, 0);
                assert(Seq::<u8>::empty() + more =~= more);
                match first_index_from(more, BOF, 0) {
                    Some(q) => {
                        lemma_first_index_found(more, BOF, 0);
                        assert((buf + more).skip(buf.len() + q) =~= more.skip(q));
                    },
                    None => {},
                }
            },
        }
    }
}

/// A step that reports a frame or an error consumes the bytes of that frame,
/// at least its BOF and its EOF.
pub proof fn lemma_decode_step_consumes(buf: Seq<u8>, in_frame: bool)
    ensures
        !(decode_step(buf, in_frame).2 is NeedMore) ==> decode_step(buf, in_frame).0.len() + 2
            <= buf.len(),
{
    lemma_first_index_found(buf, BOF, 0);
    let b = if in_frame {
        buf
    } else {
        match first_index_from(buf, BOF, 0) {
            Some(p) => buf.skip(p),
            None => buf,
        }
    };
    lemma_first_index_found(b, EOF, 1);
}

/// Calling `decode_next` until it asks for more bytes, on a decoder that
/// holds `buf` and is (or is not) inside a frame: what the decoder then holds,
/// whether it is inside a frame, and the frames and errors that the calls
/// reported, in order.
pub open spec fn drain(buf: Seq<u8>, in_frame: bool) -> (Seq<u8>, bool, Seq<DecodeStep>)
    decreases buf.len(),
    via drain_decreases
{
    let (held, inside, step) = decode_step(buf, in_frame);
    if step is NeedMore {
        (held, inside, Seq::empty())
    } else {
        let (last_held, last_inside, steps) = drain(held, inside);
        (last_held, last_inside, seq![step] + steps)
    }
}

#[via_fn]
proof fn drain_decreases(buf: Seq<u8>, in_frame: bool) {
    lemma_decode_step_consumes(buf, in_frame);
}

/// How a stream is split into pieces does not change what is decoded from
/// it: feeding `buf` and draining the decoder, then feeding `more` and
/// draining again, reports the same frames and errors, in the same order, and
/// leaves the decoder in the same state, as feeding both at once and draining.
pub proof fn lemma_drain_append(buf: Seq<u8>, in_frame: bool, more: Seq<u8>)
    ensures
        ({
            let (held, inside, first) = drain(buf, in_frame);
            let (last_held, last_inside, second) = drain(held + more, inside);
            drain(buf + more, in_frame) == (last_held, last_inside, first + second)
        }),
    decreases buf.len(),
{
    lemma_decode_step_append(buf, in_frame, more);
    lemma_decode_step_consumes(buf, in_frame);
    let (held, inside, step) = decode_step(buf, in_frame);
    if step is NeedMore {
        let (h2, i2, second) = drain(held + more, inside);
        assert(Seq::<DecodeStep>::empty() + second =~= second);
    } else {
        lemma_drain_append(held, inside, more);
        let (h1, i1, rest_steps) = drain(held, inside);
        let (h2, i2, second) = drain(h1 + more, i1);
        assert(seq![step] + rest_steps + second =~= seq![step] + (rest_steps + second));
    }
}

/// Feeding in two pieces leaves a decoder in the state that feeding both at
/// once does, so every later call reports the same.
pub proof fn lemma_feed_twice(buf: Seq<u8>, in_frame: bool, a: Seq<u8>, b: Seq<u8>)
    ensures
        drain((buf + a) + b, in_frame) == drain(buf + (a + b), in_frame),
{
    assert((buf + a) + b =~= buf + (a + b));
}

/// Whether `s` holds no BOF: bytes that a decoder outside any frame drops.
pub open spec fn is_noise(s: Seq<u8>) -> bool {
    forall|i: int| 0 <= i < s.len() ==> #[trigger] s[i] != BOF
}

/// The bytes of a frame are a chunk.
pub proof fn lemma_frame_is_chunk(content: Seq<u8>)
    ensures
        is_chunk(frame_bytes(content)),
{
    lemma_frame_bytes_framed(content);
    lemma_framed_is_chunk(content + le_bytes(!crc16(content)));
}

/// Bytes before a frame that hold no BOF are dropped: a decoder outside any
/// frame, holding such bytes, a chunk (a frame, or an invalid one) and more
/// bytes, reports what decoding the chunk gives and keeps exactly the bytes
/// after it.
pub proof fn lemma_stream_skips_garbage(garbage: Seq<u8>, chunk: Seq<u8>, rest: Seq<u8>)
    requires
        is_noise(garbage),
        is_chunk(chunk),
    ensures
        decode_step(garbage + chunk + rest, false) == (rest, false, frame_step(chunk)),
{
    lemma_first_index_skip(garbage, BOF, 0, garbage.len() as int);
    lemma_decode_step_append(garbage, false, chunk + rest);
    assert(Seq::<u8>::empty() + (chunk + rest) =~= chunk + rest);
    assert(garbage + chunk + rest =~= garbage + (chunk + rest));
    lemma_stream_chunk_then_rest(chunk, rest);
}

/// A stream of pieces, each some noise followed by a chunk.
pub open spec fn chunk_stream(pieces: Seq<(Seq<u8>, Seq<u8>)>) -> Seq<u8>
    decreases pieces.len(),
{
    if pieces.len() == 0 {
        Seq::empty()
    } else {
        pieces[0].0 + pieces[0].1 + chunk_stream(pieces.skip(1))
    }
}

/// A decoder drains a stream of frames, invalid ones among them, with noise
/// between them, one frame at a time: it reports each frame (or the error of
/// each invalid one) in order, none lost or repeated, and ends holding
/// nothing, outside any frame.
pub proof fn lemma_drain_stream(pieces: Seq<(Seq<u8>, Seq<u8>)>)
    requires
        forall|k: int| 0 <= k < pieces.len() ==> is_noise(#[trigger] pieces[k].0),
        forall|k: int| 0 <= k < pieces.len() ==> is_chunk(#[trigger] pieces[k].1),
    ensures
        drain(chunk_stream(pieces), false) == (
            Seq::<u8>::empty(),
            false,
            Seq::new(pieces.len(), |k: int| frame_step(pieces[k].1)),
        ),
    decreases pieces.len(),
{
    if pieces.len() == 0 {
        assert(first_index_from(Seq::<u8>::empty(), BOF, 0) is None);
        assert(Seq::new(0, |k: int| frame_step(pieces[k].1)) =~= Seq::<DecodeStep>::empty());
    } else {
        let tail = pieces.skip(1);
        assert forall|k: int| 0 <= k < tail.len() implies is_noise(#[trigger] tail[k].0) && is_chunk(
            tail[k].1,
        ) by {
            assert(tail[k] == pieces[k + 1]);
        }
        assert(is_noise(pieces[0].0));
        assert(is_chunk(pieces[0].1));
        lemma_stream_skips_garbage(pieces[0].0, pieces[0].1, chunk_stream(tail));
        lemma_drain_stream(tail);
        assert(seq![frame_step(pieces[0].1)] + Seq::new(tail.len(), |k: int| frame_step(tail[k].1))
            =~= Seq::new(pieces.len(), |k: int| frame_step(pieces[k].1)));
    }
}

} // verus!
