//! WebSocket frames: the RFC 6455 checks that ntex's codec leaves out, and the
//! reassembly of fragmented messages under the payload limit.

use crate::text::{self, copy_bytes, is_utf8};
use ntex::codec::Decoder;
use ntex::util::BytesMut;
use ntex::ws::{Codec, Frame as F, Item as I};
use vstd::prelude::*;

verus! {

// ---------------------------------------------------------------------------
// Vocabulary
// ---------------------------------------------------------------------------
/// One frame, its payload unmasked.
#[derive(Debug)]
pub enum Frame {
    Text(Vec<u8>),
    Binary(Vec<u8>),
    Continuation(Fragment),
    Ping(Vec<u8>),
    Pong(Vec<u8>),
    Close(Option<ClosePayload>),
}

/// One fragment of a message.
#[derive(Debug)]
pub enum Fragment {
    FirstText(Vec<u8>),
    FirstBinary(Vec<u8>),
    Continue(Vec<u8>),
    Last(Vec<u8>),
}

/// A close code and what goes with it.
#[derive(Debug)]
pub struct ClosePayload {
    pub code: u16,
    pub description: Option<String>,
}

/// A violation of the framing protocol.
#[derive(Clone, Copy, Debug, PartialEq, Eq, Structural)]
pub enum ProtocolFault {
    ReservedBits,
    InvalidControlFrame,
    InterruptedMessage,
    NonminimalLength,
    InvalidExtendedLength,
    IncompleteCloseCode,
    InvalidCloseCode,
    FragmentAlreadyStarted,
    FragmentNotStarted,
}

impl ProtocolFault {
    /// The text that goes with the close code.
    pub open spec fn text(self) -> Seq<char> {
        match self {
            ProtocolFault::ReservedBits => "reserved frame bits without an extension"@,
            ProtocolFault::InvalidControlFrame => "invalid control frame"@,
            ProtocolFault::InterruptedMessage => "data frame interrupts a fragmented message"@,
            ProtocolFault::NonminimalLength => "nonminimal frame length"@,
            ProtocolFault::InvalidExtendedLength => "invalid extended frame length"@,
            ProtocolFault::IncompleteCloseCode => "incomplete close code"@,
            ProtocolFault::InvalidCloseCode => "invalid close code"@,
            ProtocolFault::FragmentAlreadyStarted => "fragment already started"@,
            ProtocolFault::FragmentNotStarted => "fragment not started"@,
        }
    }

    pub fn message(self) -> (message: &'static str)
        ensures
            message@ == self.text(),
    {
        match self {
            ProtocolFault::ReservedBits => "reserved frame bits without an extension",
            ProtocolFault::InvalidControlFrame => "invalid control frame",
            ProtocolFault::InterruptedMessage => "data frame interrupts a fragmented message",
            ProtocolFault::NonminimalLength => "nonminimal frame length",
            ProtocolFault::InvalidExtendedLength => "invalid extended frame length",
            ProtocolFault::IncompleteCloseCode => "incomplete close code",
            ProtocolFault::InvalidCloseCode => "invalid close code",
            ProtocolFault::FragmentAlreadyStarted => "fragment already started",
            ProtocolFault::FragmentNotStarted => "fragment not started",
        }
    }
}

/// A failure that ntex's codec reports.
#[derive(Debug)]
pub struct CodecFailure {
    /// Whether the declared payload exceeds the codec's size limit.
    pub overflow: bool,
    pub message: String,
}

/// Why a connection must be closed.
#[derive(Debug)]
pub enum FrameError {
    Protocol(ProtocolFault),
    InvalidText,
    TooBig,
    Ntex(CodecFailure),
}

/// Close code for a protocol error.
pub const CLOSE_PROTOCOL: u16 = 1002;

/// Close code for data that does not fit its message type.
pub const CLOSE_INVALID: u16 = 1007;

/// Close code for a message that is too big.
pub const CLOSE_SIZE: u16 = 1009;

impl FrameError {
    pub open spec fn close_code(self) -> u16 {
        match self {
            FrameError::TooBig => CLOSE_SIZE,
            FrameError::Ntex(failure) => if failure.overflow {
                CLOSE_SIZE
            } else {
                CLOSE_PROTOCOL
            },
            FrameError::InvalidText => CLOSE_INVALID,
            FrameError::Protocol(_) => CLOSE_PROTOCOL,
        }
    }

    pub open spec fn description(self, limit: usize) -> Seq<char> {
        match self {
            FrameError::InvalidText => "text frame payload is not valid UTF-8"@,
            FrameError::Protocol(fault) => fault.text(),
            FrameError::TooBig => size_message(limit),
            FrameError::Ntex(failure) => if failure.overflow {
                size_message(limit)
            } else {
                failure.message@
            },
        }
    }

    /// The close reason that tells the peer about this failure.
    pub fn reason(self, limit: usize) -> (reason: ClosePayload)
        ensures
            reason.code == self.close_code(),
            reason.description matches Some(d) && d@ == self.description(limit),
    {
        match self {
            FrameError::TooBig => ClosePayload {
                code: CLOSE_SIZE,
                description: Some(format_size_message(limit)),
            },
            FrameError::InvalidText => ClosePayload {
                code: CLOSE_INVALID,
                description: Some("text frame payload is not valid UTF-8".to_owned()),
            },
            FrameError::Protocol(fault) => ClosePayload {
                code: CLOSE_PROTOCOL,
                description: Some(fault.message().to_owned()),
            },
            FrameError::Ntex(failure) => if failure.overflow {
                ClosePayload { code: CLOSE_SIZE, description: Some(format_size_message(limit)) }
            } else {
                ClosePayload { code: CLOSE_PROTOCOL, description: Some(failure.message) }
            },
        }
    }
}

/// What the peer is told about a message over the limit.
pub open spec fn size_message(limit: usize) -> Seq<char> {
    "message exceeds limit of "@ + text::decimal(limit as nat) + " bytes"@
}

fn format_size_message(limit: usize) -> (message: String)
    ensures
        message@ == size_message(limit),
{
    text::concat3(
        "message exceeds limit of ",
        text::format_decimal(limit as u64).as_str(),
        " bytes",
    )
}

// ---------------------------------------------------------------------------
// The frame header
// ---------------------------------------------------------------------------
pub open spec fn opcode(first: u8) -> int {
    (first % 16) as int
}

pub open spec fn finished(first: u8) -> bool {
    first >= 128
}

pub open spec fn reserved_bits(first: u8) -> bool {
    (first / 16) % 8 != 0
}

pub open spec fn short_length(second: u8) -> int {
    (second % 128) as int
}

pub open spec fn masked(second: u8) -> bool {
    second >= 128
}

/// The bytes before the masking key.
pub open spec fn header_length(second: u8) -> int {
    if short_length(second) == 126 {
        4
    } else if short_length(second) == 127 {
        10
    } else {
        2
    }
}

/// The payload length that a complete header declares.
pub open spec fn declared_length(bytes: Seq<u8>) -> int {
    if short_length(bytes[1]) == 126 {
        bytes[2] * 0x100 + bytes[3]
    } else if short_length(bytes[1]) == 127 {
        bytes[2] * 0x100000000000000 + bytes[3] * 0x1000000000000 + bytes[4] * 0x10000000000
            + bytes[5] * 0x100000000 + bytes[6] * 0x1000000 + bytes[7] * 0x10000 + bytes[8] * 0x100
            + bytes[9]
    } else {
        short_length(bytes[1])
    }
}

pub open spec fn header_complete(bytes: Seq<u8>) -> bool {
    bytes.len() >= 2 && bytes.len() >= header_length(bytes[1])
}

/// A legal length within the limit leaves room for a frame header. It always does
/// where addresses have 64 bits, and under any limit that does so itself.
pub open spec fn fits_machine(bytes: Seq<u8>, limit: usize) -> bool {
    header_complete(bytes) && declared_length(bytes) < 0x8000000000000000 && declared_length(bytes)
        <= limit ==> declared_length(bytes) + 14 <= usize::MAX
}

/// The payload of a close frame that is complete.
pub open spec fn close_payload(bytes: Seq<u8>) -> Seq<u8> {
    if masked(bytes[1]) {
        Seq::new(
            short_length(bytes[1]) as nat,
            |i: int| bytes[6 + i] ^ bytes[2 + i % 4],
        )
    } else {
        bytes.subrange(2, 2 + short_length(bytes[1]))
    }
}

/// Close codes that may be sent: neither reserved for local use nor unassigned.
pub open spec fn sendable_close_code(code: int) -> bool {
    1000 <= code <= 1003 || 1007 <= code <= 1014 || 3000 <= code <= 4999
}

/// What the checks say about the buffered bytes.
pub enum Verdict {
    /// More bytes are needed to tell.
    Incomplete,
    Refused(ProtocolFault),
    InvalidText,
    /// The codec may decode the frame.
    Forward,
}

/// The checks on the bytes of the next frame, in order.
pub open spec fn verdict(bytes: Seq<u8>, fragmented: bool) -> Verdict {
    let code = opcode(bytes[0]);
    let short = short_length(bytes[1]);
    if bytes.len() < 2 {
        Verdict::Incomplete
    } else if reserved_bits(bytes[0]) {
        Verdict::Refused(ProtocolFault::ReservedBits)
    } else if code >= 8 && (!finished(bytes[0]) || short > 125) {
        Verdict::Refused(ProtocolFault::InvalidControlFrame)
    } else if (code == 1 || code == 2) && fragmented {
        Verdict::Refused(ProtocolFault::InterruptedMessage)
    } else if bytes.len() < header_length(bytes[1]) {
        Verdict::Incomplete
    } else if short == 126 && declared_length(bytes) < 126 {
        Verdict::Refused(ProtocolFault::NonminimalLength)
    } else if short == 127 && (declared_length(bytes) < 65536 || declared_length(bytes)
        >= 0x8000000000000000) {
        Verdict::Refused(ProtocolFault::InvalidExtendedLength)
    } else if code == 8 {
        close_verdict(bytes)
    } else {
        Verdict::Forward
    }
}

/// The checks on a close frame.
pub open spec fn close_verdict(bytes: Seq<u8>) -> Verdict {
    let short = short_length(bytes[1]);
    let payload = close_payload(bytes);
    if short == 1 {
        Verdict::Refused(ProtocolFault::IncompleteCloseCode)
    } else if bytes.len() < 2 + (if masked(bytes[1]) {
        4int
    } else {
        0int
    }) + short {
        Verdict::Incomplete
    } else if short < 2 {
        Verdict::Forward
    } else if !sendable_close_code(payload[0] * 0x100 + payload[1]) {
        Verdict::Refused(ProtocolFault::InvalidCloseCode)
    } else if !vstd::utf8::valid_utf8(payload.skip(2)) {
        Verdict::InvalidText
    } else {
        Verdict::Forward
    }
}

fn check_close(bytes: &[u8]) -> (v: Verdict)
    requires
        bytes@.len() >= 2,
        short_length(bytes@[1]) <= 125,
    ensures
        v == close_verdict(bytes@),
{
    let second = bytes[1];
    let short: usize = (second % 128) as usize;
    let with_mask = second >= 128;
    if short == 1 {
        return Verdict::Refused(ProtocolFault::IncompleteCloseCode);
    }
    let start: usize = if with_mask {
        6
    } else {
        2
    };
    if bytes.len() < start + short {
        return Verdict::Incomplete;
    }
    let mut payload: Vec<u8> = Vec::new();
    let mut i: usize = 0;
    while i < short
        invariant
            i <= short <= 125,
            short == short_length(bytes@[1]),
            with_mask == masked(bytes@[1]),
            start == (if with_mask {
                6int
            } else {
                2int
            }),
            bytes@.len() >= start + short,
            payload@ == close_payload(bytes@).take(i as int),
        decreases short - i,
    {
        let b = bytes[start + i];
        let plain: u8 = if with_mask {
            b ^ bytes[2 + i % 4]
        } else {
            b
        };
        payload.push(plain);
        proof {
            assert(close_payload(bytes@)[i as int] == plain);
            assert(close_payload(bytes@).take(i + 1) =~= close_payload(bytes@).take(i as int).push(
                plain,
            ));
        }
        i = i + 1;
    }
    proof {
        assert(close_payload(bytes@).take(short as int) =~= close_payload(bytes@));
    }
    if short < 2 {
        return Verdict::Forward;
    }
    let code: u16 = payload[0] as u16 * 256 + payload[1] as u16;
    if !((1000 <= code && code <= 1003) || (1007 <= code && code <= 1014) || (3000 <= code && code
        <= 4999)) {
        return Verdict::Refused(ProtocolFault::InvalidCloseCode);
    }
    let tail = payload.split_off(2);
    proof {
        assert(tail@ =~= close_payload(bytes@).skip(2));
    }
    if !is_utf8(tail.as_slice()) {
        return Verdict::InvalidText;
    }
    Verdict::Forward
}

/// Checks the bytes of the next frame.
pub fn check_frame(bytes: &[u8], fragmented: bool) -> (v: Verdict)
    ensures
        v == verdict(bytes@, fragmented),
{
    if bytes.len() < 2 {
        return Verdict::Incomplete;
    }
    let first = bytes[0];
    let second = bytes[1];
    let code: u8 = first % 16;
    let short: u8 = second % 128;
    if (first / 16) % 8 != 0 {
        return Verdict::Refused(ProtocolFault::ReservedBits);
    }
    if code >= 8 && (first < 128 || short > 125) {
        return Verdict::Refused(ProtocolFault::InvalidControlFrame);
    }
    if (code == 1 || code == 2) && fragmented {
        return Verdict::Refused(ProtocolFault::InterruptedMessage);
    }
    let header: usize = if short == 126 {
        4
    } else if short == 127 {
        10
    } else {
        2
    };
    if bytes.len() < header {
        return Verdict::Incomplete;
    }
    if short == 126 {
        let length: u16 = bytes[2] as u16 * 0x100 + bytes[3] as u16;
        if length < 126 {
            return Verdict::Refused(ProtocolFault::NonminimalLength);
        }
    }
    if short == 127 {
        let length: u64 = bytes[2] as u64 * 0x100000000000000 + bytes[3] as u64 * 0x1000000000000
            + bytes[4] as u64 * 0x10000000000 + bytes[5] as u64 * 0x100000000 + bytes[6] as u64
            * 0x1000000 + bytes[7] as u64 * 0x10000 + bytes[8] as u64 * 0x100 + bytes[9] as u64;
        if length < 65536 || length >= 0x8000000000000000 {
            return Verdict::Refused(ProtocolFault::InvalidExtendedLength);
        }
    }
    if code == 8 {
        check_close(bytes)
    } else {
        Verdict::Forward
    }
}

// ---------------------------------------------------------------------------
// The codec
// ---------------------------------------------------------------------------
/// ntex's WebSocket codec.
#[verifier::external_type_specification]
#[verifier::external_body]
pub struct ExCodec(Codec);

/// ntex's growable byte buffer.
#[verifier::external_type_specification]
#[verifier::external_body]
pub struct ExBytesMut(BytesMut);

/// The bytes that a buffer holds.
pub uninterp spec fn buffered(bytes: BytesMut) -> Seq<u8>;

/// `BytesMut::as_ref` shows the bytes of the buffer.
#[verifier::external_body]
pub(crate) fn buffered_bytes(bytes: &BytesMut) -> (slice: &[u8])
    ensures
        slice@ == buffered(*bytes),
{
    bytes.as_ref()
}

/// The largest payload that a codec lets a frame declare.
pub uninterp spec fn codec_limit(codec: Codec) -> usize;

/// Whether a codec is in the middle of a fragmented message.
pub uninterp spec fn codec_continues(codec: Codec) -> bool;

/// Whether a codec is on the side of the server.
pub uninterp spec fn codec_serves(codec: Codec) -> bool;

/// `Codec::new` with `Codec::max_size`: a server-side codec with that frame size
/// limit, outside any fragmented message.
#[verifier::external_body]
fn new_codec(max_size: usize) -> (codec: Codec)
    ensures
        codec_serves(codec),
        codec_limit(codec) == max_size,
        !codec_continues(codec),
{
    Codec::new().max_size(max_size)
}

/// Where the masking key of a client frame begins.
pub open spec fn key_start(bytes: Seq<u8>) -> int {
    header_length(bytes[1])
}

/// Where a client frame ends.
pub open spec fn frame_end(bytes: Seq<u8>) -> int {
    key_start(bytes) + 4 + declared_length(bytes)
}

/// The unmasked payload of a client frame.
pub open spec fn client_payload(bytes: Seq<u8>) -> Seq<u8> {
    Seq::new(
        declared_length(bytes) as nat,
        |i: int| bytes[key_start(bytes) + 4 + i] ^ bytes[key_start(bytes) + i % 4],
    )
}

/// Whether a code and a text are what a close payload says: nothing below two
/// bytes, else the code, and the text behind it if there is any.
pub open spec fn close_reason_of(payload: Seq<u8>, reason: Option<(u16, Option<String>)>) -> bool {
    match reason {
        None => payload.len() < 2,
        Some((code, description)) => {
            &&& payload.len() >= 2
            &&& code == payload[0] * 0x100 + payload[1]
            &&& description is Some <==> payload.len() > 2
            &&& vstd::utf8::valid_utf8(payload.skip(2)) ==> (description matches Some(d) ==> d@
                == vstd::utf8::decode_utf8(payload.skip(2)))
        },
    }
}

/// The code and the text of a close reason.
pub open spec fn reason_parts(reason: Option<ClosePayload>) -> Option<(u16, Option<String>)> {
    match reason {
        Some(r) => Some((r.code, r.description)),
        None => None,
    }
}

/// Whether `frame` is the frame at the front of `bytes`.
pub open spec fn front_frame(bytes: Seq<u8>, frame: Frame) -> bool {
    let code = opcode(bytes[0]);
    let fin = finished(bytes[0]);
    let payload = client_payload(bytes);
    match frame {
        Frame::Text(b) => code == 1 && fin && b@ == payload,
        Frame::Binary(b) => code == 2 && fin && b@ == payload,
        Frame::Continuation(Fragment::FirstText(b)) => code == 1 && !fin && b@ == payload,
        Frame::Continuation(Fragment::FirstBinary(b)) => code == 2 && !fin && b@ == payload,
        Frame::Continuation(Fragment::Continue(b)) => code == 0 && !fin && b@ == payload,
        Frame::Continuation(Fragment::Last(b)) => code == 0 && fin && b@ == payload,
        Frame::Ping(b) => code == 9 && b@ == payload,
        Frame::Pong(b) => code == 10 && b@ == payload,
        Frame::Close(reason) => code == 8 && close_reason_of(payload, reason_parts(reason)),
    }
}

/// What ntex's codec finds wrong with a frame.
pub enum CodecFault {
    Unmasked,
    InvalidOpcode(int),
    Overflow,
    ContinuationNotStarted,
    ContinuationStarted,
}

impl CodecFault {
    /// The text of ntex's error.
    pub open spec fn text(self) -> Seq<char> {
        match self {
            CodecFault::Unmasked => "Received an unmasked frame from client"@,
            CodecFault::InvalidOpcode(code) => "Invalid opcode: "@ + text::decimal(code as nat),
            CodecFault::Overflow => "A payload reached size limit."@,
            CodecFault::ContinuationNotStarted => "Continuation is not started."@,
            CodecFault::ContinuationStarted =>
                "Received new continuation but it is already started"@,
        }
    }

    /// A frame out of sequence is taken off the buffer before it is refused.
    pub open spec fn takes_the_frame(self) -> bool {
        self is ContinuationNotStarted || self is ContinuationStarted
    }
}

/// How ntex's codec answers the bytes of the next frame.
pub enum CodecAnswer {
    /// More bytes are needed.
    Incomplete,
    Refused(CodecFault),
    /// The frame is decoded.
    Decoded,
}

/// The answer of a codec with this size limit, inside a fragmented message or not,
/// to at least two bytes.
pub open spec fn codec_answer(bytes: Seq<u8>, continues: bool, limit: usize) -> CodecAnswer {
    let code = opcode(bytes[0]);
    if !masked(bytes[1]) {
        CodecAnswer::Refused(CodecFault::Unmasked)
    } else if !known_opcode(code) {
        CodecAnswer::Refused(CodecFault::InvalidOpcode(code))
    } else if !header_complete(bytes) {
        CodecAnswer::Incomplete
    } else if declared_length(bytes) > limit {
        CodecAnswer::Refused(CodecFault::Overflow)
    } else if bytes.len() < frame_end(bytes) {
        CodecAnswer::Incomplete
    } else if code == 0 && !continues {
        CodecAnswer::Refused(CodecFault::ContinuationNotStarted)
    } else if (code == 1 || code == 2) && !finished(bytes[0]) && continues {
        CodecAnswer::Refused(CodecFault::ContinuationStarted)
    } else {
        CodecAnswer::Decoded
    }
}

/// Whether a failure tells about a fault.
pub open spec fn tells(failure: CodecFailure, fault: CodecFault) -> bool {
    &&& failure.overflow <==> fault is Overflow
    &&& failure.message@ == fault.text()
}

/// `Codec::decode` of a server-side codec, on the bytes of a frame whose declared
/// length is a legal one, and of a control frame that is short and not fragmented.
///
/// A frame that is masked, of a known opcode, within the size limit, complete, and
/// in sequence is removed from the buffer; here are its unmasked payload, or for a
/// close frame the code and the text. The text of a close frame is stated where it
/// is well-formed. Anything else is refused with the text of ntex's error or left
/// alone for want of bytes. The codec notes that a fragmented message begins or
/// ends.
#[verifier::external_body]
fn codec_decode(codec: &mut Codec, bytes: &mut BytesMut) -> (r: Result<
    Option<(Vec<u8>, Option<(u16, Option<String>)>)>,
    CodecFailure,
>)
    requires
        codec_serves(*old(codec)),
        buffered(*old(bytes)).len() >= 2,
        fits_machine(buffered(*old(bytes)), codec_limit(*old(codec))),
        header_complete(buffered(*old(bytes))) ==> declared_length(buffered(*old(bytes)))
            < 0x8000000000000000,
        opcode(buffered(*old(bytes))[0]) >= 8 ==> finished(buffered(*old(bytes))[0])
            && short_length(buffered(*old(bytes))[1]) <= 125,
    ensures
        ({
            let before = buffered(*old(bytes));
            let continues = codec_continues(*old(codec));
            match codec_answer(before, continues, codec_limit(*old(codec))) {
                CodecAnswer::Incomplete => {
                    &&& r matches Ok(None)
                    &&& buffered(*final(bytes)) == before
                    &&& codec_continues(*final(codec)) == continues
                },
                CodecAnswer::Refused(fault) => {
                    &&& r matches Err(failure) && tells(failure, fault)
                    &&& buffered(*final(bytes)) == (if fault.takes_the_frame() {
                        before.skip(frame_end(before))
                    } else {
                        before
                    })
                    &&& codec_continues(*final(codec)) == continues
                },
                CodecAnswer::Decoded => {
                    &&& r matches Ok(Some((payload, close)))
                    &&& opcode(before[0]) != 8 ==> payload@ == client_payload(before)
                    &&& opcode(before[0]) == 8 ==> close_reason_of(client_payload(before), close)
                    &&& buffered(*final(bytes)) == before.skip(frame_end(before))
                    &&& codec_continues(*final(codec)) == fragments_after(before[0], continues)
                },
            }
        }),
        codec_limit(*final(codec)) == codec_limit(*old(codec)),
        codec_serves(*final(codec)),
{
    let failed = |e: ntex::ws::error::ProtocolError| CodecFailure {
        overflow: matches!(e, ntex::ws::error::ProtocolError::Overflow),
        message: e.to_string(),
    };
    Ok(codec.decode(bytes).map_err(failed)?.map(|frame| match frame {
        F::Text(b) | F::Binary(b) | F::Ping(b) | F::Pong(b) => (b.to_vec(), None),
        F::Continuation(I::FirstText(b) | I::FirstBinary(b) | I::Continue(b) | I::Last(b)) => {
            (b.to_vec(), None)
        },
        F::Close(reason) => (Vec::new(), reason.map(|r| (r.code.into(), r.description))),
    }))
}

/// The opcodes of RFC 6455.
pub open spec fn known_opcode(code: int) -> bool {
    0 <= code <= 2 || 8 <= code <= 10
}

/// The frame that a first byte announces.
fn frame_of(first: u8, payload: Vec<u8>, close: Option<(u16, Option<String>)>) -> (frame: Frame)
    requires
        known_opcode(opcode(first)),
    ensures
        match frame {
            Frame::Text(b) => opcode(first) == 1 && finished(first) && b@ == payload@,
            Frame::Binary(b) => opcode(first) == 2 && finished(first) && b@ == payload@,
            Frame::Continuation(Fragment::FirstText(b)) => opcode(first) == 1 && !finished(first)
                && b@ == payload@,
            Frame::Continuation(Fragment::FirstBinary(b)) => opcode(first) == 2 && !finished(first)
                && b@ == payload@,
            Frame::Continuation(Fragment::Continue(b)) => opcode(first) == 0 && !finished(first)
                && b@ == payload@,
            Frame::Continuation(Fragment::Last(b)) => opcode(first) == 0 && finished(first) && b@
                == payload@,
            Frame::Ping(b) => opcode(first) == 9 && b@ == payload@,
            Frame::Pong(b) => opcode(first) == 10 && b@ == payload@,
            Frame::Close(reason) => opcode(first) == 8 && reason_parts(reason) == close,
        },
{
    let code: u8 = first % 16;
    let fin = first >= 128;
    if code == 0 {
        if fin {
            Frame::Continuation(Fragment::Last(payload))
        } else {
            Frame::Continuation(Fragment::Continue(payload))
        }
    } else if code == 1 {
        if fin {
            Frame::Text(payload)
        } else {
            Frame::Continuation(Fragment::FirstText(payload))
        }
    } else if code == 2 {
        if fin {
            Frame::Binary(payload)
        } else {
            Frame::Continuation(Fragment::FirstBinary(payload))
        }
    } else if code == 9 {
        Frame::Ping(payload)
    } else if code == 10 {
        Frame::Pong(payload)
    } else {
        match close {
            Some((code, description)) => Frame::Close(Some(ClosePayload { code, description })),
            None => Frame::Close(None),
        }
    }
}

/// A codec that also checks what a decoded frame no longer shows.
pub struct CheckedCodec {
    codec: Codec,
    fragmented: bool,
}

/// What decoding does to the buffer and to the record of a fragmented message, and
/// what comes out: the checks come first, and what passes them is answered by
/// ntex's codec.
pub open spec fn decodes(
    before: Seq<u8>,
    fragmented: bool,
    limit: usize,
    r: Result<Option<Frame>, FrameError>,
    after: Seq<u8>,
    fragmented_after: bool,
) -> bool {
    match verdict(before, fragmented) {
        Verdict::Incomplete => r matches Ok(None) && after == before && fragmented_after
            == fragmented,
        Verdict::Refused(fault) => {
            &&& r matches Err(FrameError::Protocol(f)) && f == fault
            &&& after == before
            &&& fragmented_after == fragmented
        },
        Verdict::InvalidText => {
            &&& r matches Err(FrameError::InvalidText)
            &&& after == before
            &&& fragmented_after == fragmented
        },
        Verdict::Forward => match codec_answer(before, fragmented, limit) {
            CodecAnswer::Incomplete => r matches Ok(None) && after == before && fragmented_after
                == fragmented,
            CodecAnswer::Refused(fault) => {
                &&& r matches Err(FrameError::Ntex(failure)) && tells(failure, fault)
                &&& after == (if fault.takes_the_frame() {
                    before.skip(frame_end(before))
                } else {
                    before
                })
                &&& fragmented_after == fragmented
            },
            CodecAnswer::Decoded => {
                &&& r matches Ok(Some(frame)) && front_frame(before, frame)
                &&& after == before.skip(frame_end(before))
                &&& fragmented_after == fragments_after(before[0], fragmented)
            },
        },
    }
}

impl CheckedCodec {
    /// Whether a fragmented message is in progress.
    pub closed spec fn in_fragments(self) -> bool {
        self.fragmented
    }

    /// The largest payload of a frame.
    pub closed spec fn limit(self) -> usize {
        codec_limit(self.codec)
    }

    /// ntex's codec is that of a server, and at the same place in a message.
    pub closed spec fn valid(self) -> bool {
        codec_serves(self.codec) && codec_continues(self.codec) == self.fragmented
    }

    /// A codec for messages of at most `limit` bytes. Control frames always fit.
    pub fn new(limit: usize) -> (codec: CheckedCodec)
        ensures
            codec.valid(),
            !codec.in_fragments(),
            codec.limit() == (if limit < 125 {
                125
            } else {
                limit
            }),
    {
        let max_size: usize = if limit < 125 {
            125
        } else {
            limit
        };
        CheckedCodec { codec: new_codec(max_size), fragmented: false }
    }

    /// Decodes the frame at the front of the buffer.
    ///
    /// The checks come first: bytes that break one of them are refused, and bytes
    /// too few to tell are left alone. What passes goes to ntex's codec.
    pub fn decode(&mut self, bytes: &mut BytesMut) -> (r: Result<Option<Frame>, FrameError>)
        requires
            old(self).valid(),
            fits_machine(buffered(*old(bytes)), old(self).limit()),
        ensures
            final(self).valid(),
            final(self).limit() == old(self).limit(),
            decodes(
                buffered(*old(bytes)),
                old(self).in_fragments(),
                old(self).limit(),
                r,
                buffered(*final(bytes)),
                final(self).in_fragments(),
            ),
    {
        let slice = buffered_bytes(bytes);
        match check_frame(slice, self.fragmented) {
            Verdict::Incomplete => {
                return Ok(None);
            },
            Verdict::Refused(fault) => {
                return Err(FrameError::Protocol(fault));
            },
            Verdict::InvalidText => {
                return Err(FrameError::InvalidText);
            },
            Verdict::Forward => {},
        }
        let first = slice[0];
        match codec_decode(&mut self.codec, bytes) {
            Err(failure) => Err(FrameError::Ntex(failure)),
            Ok(None) => Ok(None),
            Ok(Some((payload, close))) => {
                let code: u8 = first % 16;
                let fin = first >= 128;
                if (code == 1 || code == 2) && !fin {
                    self.fragmented = true;
                }
                if code == 0 && fin {
                    self.fragmented = false;
                }
                Ok(Some(frame_of(first, payload, close)))
            },
        }
    }
}

/// Whether a fragmented message is in progress after a frame with this first byte.
pub open spec fn fragments_after(first: u8, before: bool) -> bool {
    if opcode(first) == 0 && finished(first) {
        false
    } else if (opcode(first) == 1 || opcode(first) == 2) && !finished(first) {
        true
    } else {
        before
    }
}

// ---------------------------------------------------------------------------
// Reassembly
// ---------------------------------------------------------------------------
/// A message in progress: whether it is text, and the bytes so far.
pub struct Assembly {
    partial: Option<(bool, Vec<u8>)>,
}

impl View for Assembly {
    type V = Option<(bool, Seq<u8>)>;

    closed spec fn view(&self) -> Option<(bool, Seq<u8>)> {
        match self.partial {
            Some((is_text, bytes)) => Some((is_text, bytes@)),
            None => None,
        }
    }
}

/// The result of accepting a frame, with the bytes of a finished message.
pub open spec fn shown(r: Result<Option<Vec<u8>>, FrameError>) -> Result<Option<Seq<u8>>, FrameError> {
    match r {
        Ok(Some(bytes)) => Ok(Some(bytes@)),
        Ok(None) => Ok(None),
        Err(error) => Err(error),
    }
}

/// A whole message in one frame: too big, not text, or finished.
pub open spec fn whole_message(is_text: bool, payload: Seq<u8>, limit: usize) -> Result<
    Option<Seq<u8>>,
    FrameError,
> {
    if payload.len() > limit {
        Err(FrameError::TooBig)
    } else if is_text && !vstd::utf8::valid_utf8(payload) {
        Err(FrameError::InvalidText)
    } else {
        Ok(Some(payload))
    }
}

/// What a frame does to the message in progress, and what comes out.
pub open spec fn accepted(
    partial: Option<(bool, Seq<u8>)>,
    frame: Frame,
    limit: usize,
) -> (Option<(bool, Seq<u8>)>, Result<Option<Seq<u8>>, FrameError>) {
    match frame {
        Frame::Continuation(Fragment::FirstText(b)) => started(partial, true, b@, limit),
        Frame::Continuation(Fragment::FirstBinary(b)) => started(partial, false, b@, limit),
        Frame::Continuation(Fragment::Continue(b)) => extended(partial, b@, false, limit),
        Frame::Continuation(Fragment::Last(b)) => extended(partial, b@, true, limit),
        Frame::Binary(b) => (partial, whole_message(false, b@, limit)),
        Frame::Text(b) => (partial, whole_message(true, b@, limit)),
        _ => (partial, Ok(None)),
    }
}

/// The first fragment of a message.
pub open spec fn started(
    partial: Option<(bool, Seq<u8>)>,
    is_text: bool,
    payload: Seq<u8>,
    limit: usize,
) -> (Option<(bool, Seq<u8>)>, Result<Option<Seq<u8>>, FrameError>) {
    if partial is Some {
        (partial, Err(FrameError::Protocol(ProtocolFault::FragmentAlreadyStarted)))
    } else if payload.len() > limit {
        (partial, Err(FrameError::TooBig))
    } else {
        (Some((is_text, payload)), Ok(None))
    }
}

/// A further fragment of a message.
pub open spec fn extended(
    partial: Option<(bool, Seq<u8>)>,
    payload: Seq<u8>,
    last: bool,
    limit: usize,
) -> (Option<(bool, Seq<u8>)>, Result<Option<Seq<u8>>, FrameError>) {
    match partial {
        None => (partial, Err(FrameError::Protocol(ProtocolFault::FragmentNotStarted))),
        Some((is_text, sofar)) => if sofar.len() + payload.len() > limit && payload.len() > 0 {
            (partial, Err(FrameError::TooBig))
        } else if !last {
            (Some((is_text, sofar + payload)), Ok(None))
        } else if is_text && !vstd::utf8::valid_utf8(sofar + payload) {
            (None, Err(FrameError::InvalidText))
        } else {
            (None, Ok(Some(sofar + payload)))
        },
    }
}

impl Assembly {
    /// No message in progress.
    pub fn new() -> (assembly: Assembly)
        ensures
            assembly@ is None,
    {
        Assembly { partial: None }
    }

    /// Accepts a whole message. Frames without data yield nothing.
    pub fn data(&self, frame: Frame, limit: usize) -> (r: Result<Option<Vec<u8>>, FrameError>)
        ensures
            match frame {
                Frame::Binary(b) => shown(r) == whole_message(false, b@, limit),
                Frame::Text(b) => shown(r) == whole_message(true, b@, limit),
                _ => shown(r) == Ok::<Option<Seq<u8>>, FrameError>(None),
            },
    {
        let (is_text, bytes) = match frame {
            Frame::Binary(bytes) => (false, bytes),
            Frame::Text(bytes) => (true, bytes),
            _ => {
                return Ok(None);
            },
        };
        if bytes.len() > limit {
            return Err(FrameError::TooBig);
        }
        if is_text && !is_utf8(bytes.as_slice()) {
            return Err(FrameError::InvalidText);
        }
        Ok(Some(bytes))
    }

    fn start(&mut self, is_text: bool, payload: Vec<u8>, limit: usize) -> (r: Result<
        Option<Vec<u8>>,
        FrameError,
    >)
        ensures
            (final(self)@, shown(r)) == started(old(self)@, is_text, payload@, limit),
    {
        if self.partial.is_some() {
            return Err(FrameError::Protocol(ProtocolFault::FragmentAlreadyStarted));
        }
        if payload.len() > limit {
            return Err(FrameError::TooBig);
        }
        self.partial = Some((is_text, payload));
        Ok(None)
    }

    fn extend(&mut self, payload: Vec<u8>, last: bool, limit: usize) -> (r: Result<
        Option<Vec<u8>>,
        FrameError,
    >)
        ensures
            (final(self)@, shown(r)) == extended(old(self)@, payload@, last, limit),
    {
        let mut payload = payload;
        match self.partial.take() {
            None => Err(FrameError::Protocol(ProtocolFault::FragmentNotStarted)),
            Some((is_text, mut bytes)) => {
                let room: usize = if bytes.len() < limit {
                    limit - bytes.len()
                } else {
                    0
                };
                if payload.len() > room {
                    self.partial = Some((is_text, bytes));
                    return Err(FrameError::TooBig);
                }
                bytes.append(&mut payload);
                if !last {
                    self.partial = Some((is_text, bytes));
                    return Ok(None);
                }
                if is_text && !is_utf8(bytes.as_slice()) {
                    return Err(FrameError::InvalidText);
                }
                Ok(Some(bytes))
            },
        }
    }

    /// Accepts a frame; returns the message that it completes, if it does.
    pub fn accept(&mut self, frame: Frame, limit: usize) -> (r: Result<Option<Vec<u8>>, FrameError>)
        ensures
            (final(self)@, shown(r)) == accepted(old(self)@, frame, limit),
    {
        match frame {
            Frame::Continuation(Fragment::FirstText(bytes)) => self.start(true, bytes, limit),
            Frame::Continuation(Fragment::FirstBinary(bytes)) => self.start(false, bytes, limit),
            Frame::Continuation(Fragment::Continue(bytes)) => self.extend(bytes, false, limit),
            Frame::Continuation(Fragment::Last(bytes)) => self.extend(bytes, true, limit),
            other => self.data(other, limit),
        }
    }
}

// ---------------------------------------------------------------------------
// Laws
// ---------------------------------------------------------------------------
/// The codec's record of a fragmented message and the assembly stay in step: as
/// long as frames are accepted, a message is in progress in the one exactly when
/// it is in the other, and no first fragment meets a message in progress.
pub proof fn codec_and_assembly_agree(
    bytes: Seq<u8>,
    fragmented: bool,
    frame: Frame,
    partial: Option<(bool, Seq<u8>)>,
    limit: usize,
)
    requires
        bytes.len() >= 2,
        verdict(bytes, fragmented) is Forward,
        front_frame(bytes, frame),
        partial is Some <==> fragmented,
    ensures
        accepted(partial, frame, limit).1 is Ok ==> (accepted(partial, frame, limit).0 is Some
            <==> fragments_after(bytes[0], fragmented)),
        accepted(partial, frame, limit).1 != Err::<Option<Seq<u8>>, FrameError>(
            FrameError::Protocol(ProtocolFault::FragmentAlreadyStarted),
        ),
{
}

/// One call of the decoder: the buffer before and after it, and what came out.
pub struct Decoding {
    pub before: Seq<u8>,
    pub after: Seq<u8>,
    pub result: Result<Option<Frame>, FrameError>,
}

/// Whether `calls` are the calls of a decoder since it was made, and `states` its
/// record of a fragmented message before each of them and after the last.
pub open spec fn decoder_run(calls: Seq<Decoding>, states: Seq<bool>, limit: usize) -> bool {
    &&& states.len() == calls.len() + 1
    &&& !states[0]
    &&& forall|i: int| 0 <= i < calls.len() ==> decoded_at(calls, states, limit, i)
}

/// Whether one of the calls leads from its state to the next.
pub open spec fn decoded_at(
    calls: Seq<Decoding>,
    states: Seq<bool>,
    limit: usize,
    i: int,
) -> bool {
    decodes(
        calls[i].before,
        states[i],
        limit,
        calls[i].result,
        calls[i].after,
        states[i + 1],
    )
}

/// Whether a call gave the first fragment of a message.
pub open spec fn gave_first(call: Decoding) -> bool {
    ||| call.result matches Ok(Some(Frame::Continuation(Fragment::FirstText(_))))
    ||| call.result matches Ok(Some(Frame::Continuation(Fragment::FirstBinary(_))))
}

/// Whether a call gave the last fragment of a message.
pub open spec fn gave_last(call: Decoding) -> bool {
    call.result matches Ok(Some(Frame::Continuation(Fragment::Last(_))))
}

/// Whether a buffer begins with a data frame that is no continuation.
pub open spec fn begins_with_data(bytes: Seq<u8>) -> bool {
    &&& bytes.len() >= 2
    &&& opcode(bytes[0]) == 1 || opcode(bytes[0]) == 2
    &&& !reserved_bits(bytes[0])
}

proof fn lemma_stays_open(
    calls: Seq<Decoding>,
    states: Seq<bool>,
    limit: usize,
    from: int,
    to: int,
)
    requires
        decoder_run(calls, states, limit),
        0 <= from < to <= calls.len(),
        gave_first(calls[from]),
        forall|j: int| from < j < to ==> !gave_last(#[trigger] calls[j]),
    ensures
        states[to],
    decreases to - from,
{
    if to == from + 1 {
        assert(decoded_at(calls, states, limit, from));
    } else {
        lemma_stays_open(calls, states, limit, from, to - 1);
        assert(decoded_at(calls, states, limit, to - 1));
        assert(!gave_last(calls[to - 1]));
    }
}

proof fn lemma_stays_closed(
    calls: Seq<Decoding>,
    states: Seq<bool>,
    limit: usize,
    from: int,
    to: int,
)
    requires
        decoder_run(calls, states, limit),
        0 <= from < to <= calls.len(),
        gave_last(calls[from]),
        forall|j: int| from < j < to ==> !gave_first(#[trigger] calls[j]),
    ensures
        !states[to],
    decreases to - from,
{
    if to == from + 1 {
        assert(decoded_at(calls, states, limit, from));
    } else {
        lemma_stays_closed(calls, states, limit, from, to - 1);
        assert(decoded_at(calls, states, limit, to - 1));
        assert(!gave_first(calls[to - 1]));
    }
}

/// From the first fragment of a message to its last, whatever else was decoded in
/// between, a text or binary frame is refused as an interruption, and the buffer is
/// left alone.
pub proof fn fragmented_messages_are_not_interrupted(
    calls: Seq<Decoding>,
    states: Seq<bool>,
    limit: usize,
    first: int,
    next: Decoding,
    state: bool,
)
    requires
        decoder_run(calls, states, limit),
        0 <= first < calls.len(),
        gave_first(calls[first]),
        forall|j: int| first < j < calls.len() ==> !gave_last(#[trigger] calls[j]),
        begins_with_data(next.before),
        decodes(next.before, states.last(), limit, next.result, next.after, state),
    ensures
        next.result matches Err(FrameError::Protocol(fault)) && fault
            == ProtocolFault::InterruptedMessage,
        next.after == next.before,
        state,
{
    lemma_stays_open(calls, states, limit, first, calls.len() as int);
}

/// Once the last fragment was decoded, a text or binary frame interrupts nothing,
/// until another first fragment comes.
pub proof fn finished_messages_are_not_interrupted(
    calls: Seq<Decoding>,
    states: Seq<bool>,
    limit: usize,
    last: int,
    next: Decoding,
    state: bool,
)
    requires
        decoder_run(calls, states, limit),
        0 <= last < calls.len(),
        gave_last(calls[last]),
        forall|j: int| last < j < calls.len() ==> !gave_first(#[trigger] calls[j]),
        decodes(next.before, states.last(), limit, next.result, next.after, state),
    ensures
        next.result != Err::<Option<Frame>, FrameError>(
            FrameError::Protocol(ProtocolFault::InterruptedMessage),
        ),
{
    lemma_stays_closed(calls, states, limit, last, calls.len() as int);
}

/// Whether bytes begin with a complete masked frame of this first byte, whose
/// length is written in the shortest form.
pub open spec fn begins_with_frame(bytes: Seq<u8>, first: u8) -> bool {
    &&& header_complete(bytes)
    &&& bytes[0] == first
    &&& masked(bytes[1])
    &&& short_length(bytes[1]) == 126 ==> declared_length(bytes) >= 126
    &&& short_length(bytes[1]) == 127 ==> 65536 <= declared_length(bytes) < 0x8000000000000000
    &&& frame_end(bytes) <= bytes.len()
}

/// A complete message in one frame within the limit is decoded, whatever follows
/// it, and what follows it is left for the next frame.
pub proof fn whole_frames_are_decoded(
    bytes: Seq<u8>,
    is_text: bool,
    limit: usize,
    r: Result<Option<Frame>, FrameError>,
    after: Seq<u8>,
    fragmented_after: bool,
)
    requires
        begins_with_frame(
            bytes,
            if is_text {
                0x81
            } else {
                0x82
            },
        ),
        declared_length(bytes) <= limit,
        decodes(bytes, false, limit, r, after, fragmented_after),
    ensures
        is_text ==> (r matches Ok(Some(Frame::Text(payload))) && payload@ == client_payload(bytes)),
        !is_text ==> (r matches Ok(Some(Frame::Binary(payload))) && payload@ == client_payload(
            bytes,
        )),
        after == bytes.skip(frame_end(bytes)),
        !fragmented_after,
{
}

/// Neither a message in progress nor a finished one exceeds the limit.
pub proof fn messages_respect_the_limit(
    partial: Option<(bool, Seq<u8>)>,
    frame: Frame,
    limit: usize,
)
    requires
        partial matches Some((_, sofar)) ==> sofar.len() <= limit,
    ensures
        accepted(partial, frame, limit).0 matches Some((_, sofar)) ==> sofar.len() <= limit,
        accepted(partial, frame, limit).1 matches Ok(Some(message)) ==> message.len() <= limit,
{
}

/// The bytes of several fragments, in order.
pub open spec fn joined(chunks: Seq<Seq<u8>>) -> Seq<u8>
    decreases chunks.len(),
{
    if chunks.len() == 0 {
        Seq::empty()
    } else {
        joined(chunks.drop_last()) + chunks.last()
    }
}

/// The message in progress after several further fragments.
pub open spec fn continued(
    partial: Option<(bool, Seq<u8>)>,
    chunks: Seq<Seq<u8>>,
    limit: usize,
) -> Option<(bool, Seq<u8>)>
    decreases chunks.len(),
{
    if chunks.len() == 0 {
        partial
    } else {
        extended(continued(partial, chunks.drop_last(), limit), chunks.last(), false, limit).0
    }
}

proof fn lemma_continued(is_text: bool, first: Seq<u8>, chunks: Seq<Seq<u8>>, limit: usize)
    requires
        first.len() + joined(chunks).len() <= limit,
    ensures
        continued(Some((is_text, first)), chunks, limit) == Some((is_text, first + joined(chunks))),
    decreases chunks.len(),
{
    if chunks.len() == 0 {
        assert(first + joined(chunks) =~= first);
    } else {
        lemma_continued(is_text, first, chunks.drop_last(), limit);
        assert((first + joined(chunks.drop_last())) + chunks.last() =~= first + joined(chunks));
    }
}

/// A message sent in fragments is delivered once, whole and in order, when its
/// last fragment arrives: it fits the limit, and text is well-formed.
pub proof fn fragments_are_reassembled(
    is_text: bool,
    first: Seq<u8>,
    middle: Seq<Seq<u8>>,
    last: Seq<u8>,
    limit: usize,
)
    requires
        first.len() + joined(middle).len() + last.len() <= limit,
        is_text ==> vstd::utf8::valid_utf8(first + joined(middle) + last),
    ensures
        started(None, is_text, first, limit) == (
            Some((is_text, first)),
            Ok::<Option<Seq<u8>>, FrameError>(None),
        ),
        extended(continued(Some((is_text, first)), middle, limit), last, true, limit) == (
            None::<(bool, Seq<u8>)>,
            Ok::<Option<Seq<u8>>, FrameError>(Some(first + joined(middle) + last)),
        ),
{
    lemma_continued(is_text, first, middle, limit);
}

/// The fragment that takes a message over the limit is refused, and the message
/// in progress is kept as it was.
pub proof fn oversized_fragment_is_refused(
    is_text: bool,
    sofar: Seq<u8>,
    payload: Seq<u8>,
    last: bool,
    limit: usize,
)
    requires
        payload.len() > 0,
        sofar.len() + payload.len() > limit,
    ensures
        extended(Some((is_text, sofar)), payload, last, limit) == (
            Some((is_text, sofar)),
            Err::<Option<Seq<u8>>, FrameError>(FrameError::TooBig),
        ),
{
}

/// A message that comes in one frame and fits the limit is delivered byte for byte,
/// text only where it is well-formed; one that does not is refused. A message in
/// progress stays as it was.
pub proof fn whole_messages_are_delivered_unchanged(
    partial: Option<(bool, Seq<u8>)>,
    bytes: Vec<u8>,
    limit: usize,
)
    ensures
        accepted(partial, Frame::Binary(bytes), limit).0 == partial,
        accepted(partial, Frame::Text(bytes), limit).0 == partial,
        bytes@.len() <= limit ==> accepted(partial, Frame::Binary(bytes), limit).1 == Ok::<
            Option<Seq<u8>>,
            FrameError,
        >(Some(bytes@)),
        bytes@.len() <= limit && vstd::utf8::valid_utf8(bytes@) ==> accepted(
            partial,
            Frame::Text(bytes),
            limit,
        ).1 == Ok::<Option<Seq<u8>>, FrameError>(Some(bytes@)),
        bytes@.len() <= limit && !vstd::utf8::valid_utf8(bytes@) ==> accepted(
            partial,
            Frame::Text(bytes),
            limit,
        ).1 == Err::<Option<Seq<u8>>, FrameError>(FrameError::InvalidText),
        bytes@.len() > limit ==> accepted(partial, Frame::Binary(bytes), limit).1 == Err::<
            Option<Seq<u8>>,
            FrameError,
        >(FrameError::TooBig),
        bytes@.len() > limit ==> accepted(partial, Frame::Text(bytes), limit).1 == Err::<
            Option<Seq<u8>>,
            FrameError,
        >(FrameError::TooBig),
{
}

/// The same whole message, accepted on its own, gives the same answer whatever message
/// is in progress.
pub proof fn whole_messages_do_not_depend_on_fragments(
    one: Option<(bool, Seq<u8>)>,
    other: Option<(bool, Seq<u8>)>,
    frame: Frame,
    limit: usize,
)
    requires
        !(frame is Continuation),
    ensures
        accepted(one, frame, limit).0 == one,
        accepted(one, frame, limit).1 == accepted(other, frame, limit).1,
{
}

/// Frames without data deliver nothing, and a message in progress stays as it was.
pub proof fn control_frames_deliver_nothing(
    partial: Option<(bool, Seq<u8>)>,
    frame: Frame,
    limit: usize,
)
    requires
        frame is Ping || frame is Pong || frame is Close,
    ensures
        accepted(partial, frame, limit) == (partial, Ok::<Option<Seq<u8>>, FrameError>(None)),
{
}

/// The first fragment of a message begins it, where none is in progress and it fits.
pub proof fn first_fragments_begin_a_message(
    partial: Option<(bool, Seq<u8>)>,
    bytes: Vec<u8>,
    limit: usize,
)
    ensures
        ({
            let text = accepted(partial, Frame::Continuation(Fragment::FirstText(bytes)), limit);
            let binary = accepted(
                partial,
                Frame::Continuation(Fragment::FirstBinary(bytes)),
                limit,
            );
            if partial is Some {
                let refused = (
                    partial,
                    Err::<Option<Seq<u8>>, FrameError>(
                        FrameError::Protocol(ProtocolFault::FragmentAlreadyStarted),
                    ),
                );
                text == refused && binary == refused
            } else if bytes@.len() > limit {
                let refused = (partial, Err::<Option<Seq<u8>>, FrameError>(FrameError::TooBig));
                text == refused && binary == refused
            } else {
                let begun = Ok::<Option<Seq<u8>>, FrameError>(None);
                text == (Some((true, bytes@)), begun) && binary == (Some((false, bytes@)), begun)
            }
        }),
{
}

/// A further fragment is put behind what is there, and the last one delivers all of it
/// and ends the message. Without a message in progress there is nothing to continue.
pub proof fn further_fragments_are_put_behind(
    is_text: bool,
    sofar: Seq<u8>,
    bytes: Vec<u8>,
    limit: usize,
)
    ensures
        ({
            let further = Frame::Continuation(Fragment::Continue(bytes));
            let last = Frame::Continuation(Fragment::Last(bytes));
            let message = sofar + bytes@;
            let stray = (
                None::<(bool, Seq<u8>)>,
                Err::<Option<Seq<u8>>, FrameError>(
                    FrameError::Protocol(ProtocolFault::FragmentNotStarted),
                ),
            );
            &&& accepted(None, further, limit) == stray
            &&& accepted(None, last, limit) == stray
            &&& message.len() <= limit ==> {
                &&& accepted(Some((is_text, sofar)), further, limit) == (
                    Some((is_text, message)),
                    Ok::<Option<Seq<u8>>, FrameError>(None),
                )
                &&& accepted(Some((is_text, sofar)), last, limit).0 is None
                &&& !is_text || vstd::utf8::valid_utf8(message) ==> accepted(
                    Some((is_text, sofar)),
                    last,
                    limit,
                ).1 == Ok::<Option<Seq<u8>>, FrameError>(Some(message))
                &&& is_text && !vstd::utf8::valid_utf8(message) ==> accepted(
                    Some((is_text, sofar)),
                    last,
                    limit,
                ).1 == Err::<Option<Seq<u8>>, FrameError>(FrameError::InvalidText)
            }
        }),
{
}

/// The length of a payload as the header of a client's frame declares it, in its shortest
/// form: in the second byte, or in two or eight bytes behind it, the most significant
/// first.
pub open spec fn length_bytes(n: nat) -> Seq<u8> {
    let a = n / 256;
    let b = a / 256;
    let c = b / 256;
    let d = c / 256;
    let e = d / 256;
    let f = e / 256;
    let g = f / 256;
    if n < 126 {
        seq![(128 + n) as u8]
    } else if n < 65536 {
        seq![254u8, a as u8, (n % 256) as u8]
    } else {
        seq![
            255u8,
            g as u8,
            (f % 256) as u8,
            (e % 256) as u8,
            (d % 256) as u8,
            (c % 256) as u8,
            (b % 256) as u8,
            (a % 256) as u8,
            (n % 256) as u8,
        ]
    }
}

/// The frame in which a client sends a payload: the first byte, the length, the masking
/// key, and the payload with the key laid over it.
pub open spec fn client_frame(first: u8, key: Seq<u8>, payload: Seq<u8>) -> Seq<u8> {
    seq![first] + length_bytes(payload.len()) + key + Seq::new(
        payload.len(),
        |i: int| payload[i] ^ key[i % 4],
    )
}

proof fn lemma_length_bytes(n: nat)
    requires
        n < 0x8000000000000000,
    ensures
        ({
            let bytes = length_bytes(n);
            let short = bytes[0] % 128;
            &&& bytes.len() > 0
            &&& bytes[0] >= 128
            &&& n < 126 ==> bytes.len() == 1 && short == n
            &&& 126 <= n < 65536 ==> bytes.len() == 3 && short == 126 && bytes[1] * 0x100 + bytes[2]
                == n
            &&& 65536 <= n ==> bytes.len() == 9 && short == 127 && bytes[1] * 0x100000000000000
                + bytes[2] * 0x1000000000000 + bytes[3] * 0x10000000000 + bytes[4] * 0x100000000
                + bytes[5] * 0x1000000 + bytes[6] * 0x10000 + bytes[7] * 0x100 + bytes[8] == n
        }),
{
    let a = n / 256;
    let b = a / 256;
    let c = b / 256;
    let d = c / 256;
    let e = d / 256;
    let f = e / 256;
    let g = f / 256;
    assert(n == 256 * a + n % 256);
    assert(a == 256 * b + a % 256);
    assert(b == 256 * c + b % 256);
    assert(c == 256 * d + c % 256);
    assert(d == 256 * e + d % 256);
    assert(e == 256 * f + e % 256);
    assert(f == 256 * g + f % 256);
    assert(g < 128);
}

/// What a client framed is found again: where the frame ends, and the payload byte for
/// byte, whatever its key and its length, and whatever comes behind it.
pub proof fn framed_payloads_are_read_back(
    first: u8,
    key: Seq<u8>,
    payload: Seq<u8>,
    more: Seq<u8>,
)
    requires
        key.len() == 4,
        payload.len() < 0x8000000000000000,
    ensures
        ({
            let frame = client_frame(first, key, payload);
            let bytes = frame + more;
            &&& bytes[0] == first
            &&& masked(bytes[1])
            &&& header_complete(bytes)
            &&& declared_length(bytes) == payload.len()
            &&& frame_end(bytes) == frame.len()
            &&& bytes.skip(frame_end(bytes)) == more
            &&& client_payload(bytes) == payload
        }),
{
    let n = payload.len();
    let length = length_bytes(n);
    lemma_length_bytes(n);
    let frame = client_frame(first, key, payload);
    let bytes = frame + more;
    let front = seq![first] + length;
    assert forall|i: int| 0 <= i < front.len() implies #[trigger] bytes[i] == front[i] by {}
    assert forall|i: int| 1 <= i <= length.len() implies #[trigger] bytes[i] == length[i - 1] by {
        assert(front[i] == length[i - 1]);
    }
    assert(header_length(bytes[1]) == front.len());
    assert(declared_length(bytes) == n);
    let start: int = front.len() as int;
    assert forall|i: int| 0 <= i < 4 implies #[trigger] bytes[start + i] == key[i] by {}
    assert(bytes.skip(frame_end(bytes)) =~= more);
    let read = client_payload(bytes);
    assert forall|i: int| 0 <= i < n implies #[trigger] read[i] == payload[i] by {
        let k = key[i % 4];
        let p = payload[i];
        assert(bytes[start + 4 + i] == p ^ k);
        assert(bytes[start + i % 4] == k);
        assert((p ^ k) ^ k == p) by (bit_vector);
    }
    assert(read =~= payload);
}

/// A frame with a bit set that no extension has claimed is refused.
pub proof fn reserved_bits_are_refused(bytes: Seq<u8>, fragmented: bool)
    requires
        bytes.len() >= 2,
        bytes[0] & 0x70 != 0,
    ensures
        verdict(bytes, fragmented) == Verdict::Refused(ProtocolFault::ReservedBits),
{
    let first = bytes[0];
    assert(first & 0x70 != 0 ==> (first / 16) % 8 != 0) by (bit_vector);
}

/// A control frame that is fragmented or long is refused.
pub proof fn control_frames_are_short_and_whole(bytes: Seq<u8>, fragmented: bool)
    requires
        bytes.len() >= 2,
        bytes[0] & 0x70 == 0,
        bytes[0] & 0x08 != 0,
        bytes[0] & 0x80 == 0 || bytes[1] & 0x7f > 125,
    ensures
        verdict(bytes, fragmented) == Verdict::Refused(ProtocolFault::InvalidControlFrame),
{
    let first = bytes[0];
    let second = bytes[1];
    assert(first & 0x70 == 0 ==> (first / 16) % 8 == 0) by (bit_vector);
    assert(first & 0x08 != 0 ==> first % 16 >= 8) by (bit_vector);
    assert(first & 0x80 == 0 ==> first < 128) by (bit_vector);
    assert(second & 0x7f == second % 128) by (bit_vector);
}

/// What a client framed in the shortest form passes the checks: a message in one frame or
/// the first fragment of one where none is in progress, and a further fragment always. Inside a
/// fragmented message a new one is refused.
pub proof fn well_formed_frames_are_forwarded(
    first: u8,
    key: Seq<u8>,
    payload: Seq<u8>,
    more: Seq<u8>,
    fragmented: bool,
)
    requires
        key.len() == 4,
        payload.len() < 0x8000000000000000,
        first == 0x00 || first == 0x80 || first == 0x01 || first == 0x81 || first == 0x02 || first
            == 0x82,
    ensures
        ({
            let bytes = client_frame(first, key, payload) + more;
            if fragmented && first != 0x00 && first != 0x80 {
                verdict(bytes, fragmented) == Verdict::Refused(ProtocolFault::InterruptedMessage)
            } else {
                verdict(bytes, fragmented) == Verdict::Forward
            }
        }),
{
    framed_payloads_are_read_back(first, key, payload, more);
    lemma_length_bytes(payload.len());
    let bytes = client_frame(first, key, payload) + more;
    assert(bytes[1] == length_bytes(payload.len())[0]);
}

/// Pings and pongs with at most 125 bytes pass the checks, also inside a fragmented
/// message.
pub proof fn short_control_frames_are_forwarded(
    first: u8,
    key: Seq<u8>,
    payload: Seq<u8>,
    more: Seq<u8>,
    fragmented: bool,
)
    requires
        key.len() == 4,
        payload.len() <= 125,
        first == 0x89 || first == 0x8a,
    ensures
        verdict(client_frame(first, key, payload) + more, fragmented) == Verdict::Forward,
{
    framed_payloads_are_read_back(first, key, payload, more);
    lemma_length_bytes(payload.len());
    let bytes = client_frame(first, key, payload) + more;
    assert(bytes[1] == length_bytes(payload.len())[0]);
}

/// A close frame passes the checks exactly if it is empty, or has a code that may be sent
/// and a text that is well-formed.
pub proof fn close_frames_are_checked(
    key: Seq<u8>,
    payload: Seq<u8>,
    more: Seq<u8>,
    fragmented: bool,
)
    requires
        key.len() == 4,
        payload.len() <= 125,
    ensures
        ({
            let found = verdict(client_frame(0x88, key, payload) + more, fragmented);
            let code: int = payload[0] * 256 + payload[1];
            let sendable = (1000 <= code && code < 5000) && !(1003 < code && code < 1007) && !(1014
                < code && code < 3000);
            &&& payload.len() == 0 ==> found == Verdict::Forward
            &&& payload.len() == 1 ==> found == Verdict::Refused(ProtocolFault::IncompleteCloseCode)
            &&& payload.len() >= 2 && !sendable ==> found == Verdict::Refused(
                ProtocolFault::InvalidCloseCode,
            )
            &&& payload.len() >= 2 && sendable && !vstd::utf8::valid_utf8(payload.skip(2)) ==> found
                == Verdict::InvalidText
            &&& payload.len() >= 2 && sendable && vstd::utf8::valid_utf8(payload.skip(2)) ==> found
                == Verdict::Forward
        }),
{
    framed_payloads_are_read_back(0x88, key, payload, more);
    lemma_length_bytes(payload.len());
    let bytes = client_frame(0x88, key, payload) + more;
    assert(bytes[1] == length_bytes(payload.len())[0]);
    assert(close_payload(bytes) =~= client_payload(bytes));
}

/// A message that a client framed within the limit is decoded to the very bytes, and what
/// comes behind it is left in the buffer.
pub proof fn framed_messages_are_decoded(
    key: Seq<u8>,
    payload: Seq<u8>,
    more: Seq<u8>,
    limit: usize,
    r: Result<Option<Frame>, FrameError>,
    after: Seq<u8>,
    fragmented_after: bool,
)
    requires
        key.len() == 4,
        payload.len() <= limit,
        payload.len() < 0x8000000000000000,
    ensures
        decodes(client_frame(0x82, key, payload) + more, false, limit, r, after, fragmented_after)
            ==> (r matches Ok(Some(Frame::Binary(b))) && b@ == payload) && after == more
            && !fragmented_after,
        decodes(client_frame(0x81, key, payload) + more, false, limit, r, after, fragmented_after)
            ==> (r matches Ok(Some(Frame::Text(b))) && b@ == payload) && after == more
            && !fragmented_after,
        decodes(client_frame(0x02, key, payload) + more, false, limit, r, after, fragmented_after)
            ==> (r matches Ok(Some(Frame::Continuation(Fragment::FirstBinary(b)))) && b@ == payload)
            && after == more && fragmented_after,
        decodes(client_frame(0x01, key, payload) + more, false, limit, r, after, fragmented_after)
            ==> (r matches Ok(Some(Frame::Continuation(Fragment::FirstText(b)))) && b@ == payload)
            && after == more && fragmented_after,
        decodes(client_frame(0x00, key, payload) + more, true, limit, r, after, fragmented_after)
            ==> (r matches Ok(Some(Frame::Continuation(Fragment::Continue(b)))) && b@ == payload)
            && after == more && fragmented_after,
        decodes(client_frame(0x80, key, payload) + more, true, limit, r, after, fragmented_after)
            ==> (r matches Ok(Some(Frame::Continuation(Fragment::Last(b)))) && b@ == payload)
            && after == more && !fragmented_after,
{
    lemma_decoded(0x82, key, payload, more, limit, false);
    lemma_decoded(0x81, key, payload, more, limit, false);
    lemma_decoded(0x02, key, payload, more, limit, false);
    lemma_decoded(0x01, key, payload, more, limit, false);
    lemma_decoded(0x00, key, payload, more, limit, true);
    lemma_decoded(0x80, key, payload, more, limit, true);
}

proof fn lemma_decoded(
    first: u8,
    key: Seq<u8>,
    payload: Seq<u8>,
    more: Seq<u8>,
    limit: usize,
    fragmented: bool,
)
    requires
        key.len() == 4,
        payload.len() <= limit,
        payload.len() < 0x8000000000000000,
        fragmented ==> first == 0x00 || first == 0x80,
        !fragmented ==> first == 0x01 || first == 0x81 || first == 0x02 || first == 0x82,
    ensures
        ({
            let bytes = client_frame(first, key, payload) + more;
            &&& verdict(bytes, fragmented) == Verdict::Forward
            &&& codec_answer(bytes, fragmented, limit) == CodecAnswer::Decoded
            &&& bytes[0] == first
            &&& client_payload(bytes) == payload
            &&& bytes.skip(frame_end(bytes)) == more
        }),
{
    framed_payloads_are_read_back(first, key, payload, more);
    well_formed_frames_are_forwarded(first, key, payload, more, fragmented);
}

/// As long as a part of a frame is missing, nothing is decoded and nothing is taken from the
/// buffer.
pub proof fn partial_frames_are_awaited(
    first: u8,
    key: Seq<u8>,
    payload: Seq<u8>,
    n: int,
    limit: usize,
    r: Result<Option<Frame>, FrameError>,
    after: Seq<u8>,
    fragmented_after: bool,
)
    requires
        key.len() == 4,
        payload.len() <= limit,
        payload.len() < 0x8000000000000000,
        first == 0x81 || first == 0x82,
        0 <= n < client_frame(first, key, payload).len(),
        decodes(
            client_frame(first, key, payload).take(n),
            false,
            limit,
            r,
            after,
            fragmented_after,
        ),
    ensures
        r matches Ok(None),
        after == client_frame(first, key, payload).take(n),
        !fragmented_after,
{
    let whole = client_frame(first, key, payload);
    let bytes = whole.take(n);
    framed_payloads_are_read_back(first, key, payload, Seq::empty());
    lemma_length_bytes(payload.len());
    assert(whole + Seq::<u8>::empty() =~= whole);
    assert(whole[1] == length_bytes(payload.len())[0]);
    if n >= 2 {
        assert(bytes[0] == first);
        assert(bytes[1] == whole[1]);
        if n >= header_length(whole[1]) {
            assert(declared_length(bytes) == declared_length(whole));
        }
    }
}

/// The close code tells what went wrong: the size of a message, the data in it, or the
/// protocol.
pub proof fn close_codes_tell_the_failure(fault: ProtocolFault, failure: CodecFailure)
    ensures
        FrameError::TooBig.close_code() == 1009,
        FrameError::InvalidText.close_code() == 1007,
        FrameError::Protocol(fault).close_code() == 1002,
        failure.overflow ==> FrameError::Ntex(failure).close_code() == 1009,
        !failure.overflow ==> FrameError::Ntex(failure).close_code() == 1002,
        failure.overflow ==> forall|limit: usize|
            #[trigger] FrameError::Ntex(failure).description(limit)
                == FrameError::TooBig.description(limit),
        !failure.overflow ==> forall|limit: usize|
            #[trigger] FrameError::Ntex(failure).description(limit) == failure.message@,
{
}

/// What the peer is told about a message over the limit tells the limits apart.
pub proof fn size_messages_name_the_limit(a: usize, b: usize)
    requires
        size_message(a) == size_message(b),
    ensures
        a == b,
{
    let front = "message exceeds limit of "@;
    let back = " bytes"@;
    let (x, y) = (text::decimal(a as nat), text::decimal(b as nat));
    text::lemma_decimal_roundtrip(a as nat);
    text::lemma_decimal_roundtrip(b as nat);
    assert(size_message(a).len() == front.len() + x.len() + back.len());
    assert(size_message(b).len() == front.len() + y.len() + back.len());
    assert(x =~= y) by {
        assert forall|i: int| 0 <= i < x.len() implies x[i] == y[i] by {
            assert(size_message(a)[front.len() + i] == x[i]);
            assert(size_message(b)[front.len() + i] == y[i]);
        }
    }
}

/// What an assembly makes of a message in one frame is the message, byte for byte, where
/// it fits and text is well-formed, and the message in progress stays as it was.
pub proof fn assemblies_hand_whole_messages_on(
    assembly: &mut Assembly,
    frame: Frame,
    bytes: Vec<u8>,
    limit: usize,
    r: Result<Option<Vec<u8>>, FrameError>,
)
    requires
        bytes@.len() <= limit,
        frame == Frame::Binary(bytes) || (frame == Frame::Text(bytes) && vstd::utf8::valid_utf8(
            bytes@,
        )),
        call_ensures(Assembly::accept, (assembly, frame, limit), r),
    ensures
        r matches Ok(Some(message)) && message@ == bytes@,
        final(assembly)@ == old(assembly)@,
{
}

/// The same holds where no fragments are looked at.
pub proof fn whole_messages_are_handed_on(
    assembly: &Assembly,
    bytes: Vec<u8>,
    limit: usize,
    r: Result<Option<Vec<u8>>, FrameError>,
)
    ensures
        call_ensures(Assembly::data, (assembly, Frame::Binary(bytes), limit), r) ==> (
        if bytes@.len() <= limit {
            r matches Ok(Some(message)) && message@ == bytes@
        } else {
            r matches Err(FrameError::TooBig)
        }),
        call_ensures(Assembly::data, (assembly, Frame::Text(bytes), limit), r) ==> (
        if bytes@.len() > limit {
            r matches Err(FrameError::TooBig)
        } else if vstd::utf8::valid_utf8(bytes@) {
            r matches Ok(Some(message)) && message@ == bytes@
        } else {
            r matches Err(FrameError::InvalidText)
        }),
{
}

/// A message that comes in two fragments comes out of an assembly in one piece, the first
/// in front of the second, with the second of them.
pub proof fn assemblies_join_fragments(
    assembly: &mut Assembly,
    later: &mut Assembly,
    first: Vec<u8>,
    last: Vec<u8>,
    limit: usize,
    begun: Result<Option<Vec<u8>>, FrameError>,
    ended: Result<Option<Vec<u8>>, FrameError>,
)
    requires
        first@.len() + last@.len() <= limit,
        old(assembly)@ is None,
        call_ensures(
            Assembly::accept,
            (assembly, Frame::Continuation(Fragment::FirstBinary(first)), limit),
            begun,
        ),
        old(later)@ == final(assembly)@,
        call_ensures(
            Assembly::accept,
            (later, Frame::Continuation(Fragment::Last(last)), limit),
            ended,
        ),
    ensures
        begun matches Ok(None),
        ended matches Ok(Some(message)) && message@ == first@ + last@,
        final(later)@ is None,
{
}

/// A decoder that finds a message in its buffer, framed within the limit, hands it out byte
/// for byte and leaves what comes behind.
pub proof fn decoders_hand_messages_out(
    codec: &mut CheckedCodec,
    bytes: &mut BytesMut,
    key: Seq<u8>,
    payload: Seq<u8>,
    more: Seq<u8>,
    r: Result<Option<Frame>, FrameError>,
)
    requires
        old(codec).valid(),
        !old(codec).in_fragments(),
        key.len() == 4,
        payload.len() <= old(codec).limit(),
        payload.len() < 0x8000000000000000,
        buffered(*old(bytes)) == client_frame(0x82, key, payload) + more,
        fits_machine(buffered(*old(bytes)), old(codec).limit()),
        call_ensures(CheckedCodec::decode, (codec, bytes), r),
    ensures
        r matches Ok(Some(Frame::Binary(b))) && b@ == payload,
        buffered(*final(bytes)) == more,
        !final(codec).in_fragments(),
        final(codec).limit() == old(codec).limit(),
{
    framed_messages_are_decoded(
        key,
        payload,
        more,
        old(codec).limit(),
        r,
        buffered(*final(bytes)),
        final(codec).in_fragments(),
    );
}

} // verus!
