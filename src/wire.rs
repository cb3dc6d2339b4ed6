//! The node-to-node frame: a 5-byte magic literal, a version byte, a message
//! type byte, a 4-byte big-endian payload length and the payload.

use vstd::prelude::*;
use crate::endian::{be_u32, lemma_be_u32_round_trip, push_u32_be, read_u32_be, u32_of_be};

verus! {

/// Length of the magic literal that starts every frame.
pub const MAGIC_LENGTH: usize = 5;

/// Length of a frame header: magic, version, type and payload length.
pub const HEADER_LENGTH: usize = 11;

/// The highest protocol version this node speaks.
pub const PROTOCOL_VERSION: u8 = 1;

/// The largest payload a frame may declare; a bound against peers that
/// announce huge payloads.
pub const MAX_PAYLOAD_LENGTH: u32 = 1024;

/// The magic literal `BLOCK`.
pub open spec fn magic() -> Seq<u8> {
    seq![66u8, 76u8, 79u8, 67u8, 75u8]
}

/// The fields of a frame header after the magic literal.
#[derive(Clone, Copy, PartialEq, Eq, Debug)]
pub struct FrameHeader {
    /// Protocol version of the sender.
    pub version: u8,
    /// Message type.
    pub msg_type: u8,
    /// Payload length in bytes.
    pub length: u32,
}

/// Why a frame is refused.
#[derive(Clone, Copy, PartialEq, Eq, Debug)]
pub enum FrameError {
    /// The stream does not start with the magic literal.
    BadMagic,
    /// The sender's version is above the highest one supported.
    UnsupportedVersion(u8),
    /// The declared payload length is above the bound.
    PayloadTooLarge(u32),
    /// The stream ends before the header, or before the declared payload.
    Truncated,
}

/// A frame that was accepted: its header and its payload.
pub struct Frame {
    pub header: FrameHeader,
    pub payload: Vec<u8>,
}

/// What the header at the start of `s` is, or why it is refused; only the
/// first `HEADER_LENGTH` bytes are looked at.
pub open spec fn header_result(s: Seq<u8>) -> Result<FrameHeader, FrameError> {
    if s.len() < HEADER_LENGTH {
        Err(FrameError::Truncated)
    } else if s.subrange(0, 5) != magic() {
        Err(FrameError::BadMagic)
    } else if s[5] > PROTOCOL_VERSION {
        Err(FrameError::UnsupportedVersion(s[5]))
    } else if u32_of_be(s.subrange(7, 11)) > MAX_PAYLOAD_LENGTH {
        Err(FrameError::PayloadTooLarge(u32_of_be(s.subrange(7, 11))))
    } else {
        Ok(FrameHeader { version: s[5], msg_type: s[6], length: u32_of_be(s.subrange(7, 11)) })
    }
}

/// The frame at the start of `s` (its header and payload), or why it is
/// refused.
pub open spec fn frame_result(s: Seq<u8>) -> Result<(FrameHeader, Seq<u8>), FrameError> {
    match header_result(s) {
        Err(e) => Err(e),
        Ok(h) => if s.len() < HEADER_LENGTH + h.length {
            Err(FrameError::Truncated)
        } else {
            Ok((h, s.subrange(HEADER_LENGTH as int, HEADER_LENGTH + h.length)))
        },
    }
}

/// The bytes of a frame with this header and payload.
pub open spec fn frame_bytes(h: FrameHeader, payload: Seq<u8>) -> Seq<u8> {
    magic() + seq![h.version, h.msg_type] + be_u32(h.length) + payload
}

/// Whether `bytes` starts with the magic literal; a reader may call it on
/// the first `MAGIC_LENGTH` bytes before reading the rest of the header.
pub fn has_magic(bytes: &[u8]) -> (r: bool)
    ensures
        r == (bytes@.len() >= MAGIC_LENGTH && bytes@.subrange(0, 5) == magic()),
{
    if bytes.len() < MAGIC_LENGTH {
        return false;
    }
    let r = bytes[0] == 66 && bytes[1] == 76 && bytes[2] == 79 && bytes[3] == 67 && bytes[4] == 75;
    proof {
        if r {
            assert(bytes@.subrange(0, 5) =~= magic());
        } else if bytes@.subrange(0, 5) == magic() {
            assert(bytes@.subrange(0, 5)[0] == bytes@[0]);
            assert(bytes@.subrange(0, 5)[1] == bytes@[1]);
            assert(bytes@.subrange(0, 5)[2] == bytes@[2]);
            assert(bytes@.subrange(0, 5)[3] == bytes@[3]);
            assert(bytes@.subrange(0, 5)[4] == bytes@[4]);
        }
    }
    r
}

/// Reads and checks a frame header from the first `HEADER_LENGTH` bytes.
pub fn parse_header(bytes: &[u8]) -> (r: Result<FrameHeader, FrameError>)
    ensures
        r == header_result(bytes@),
{
    if bytes.len() < HEADER_LENGTH {
        return Err(FrameError::Truncated);
    }
    if !has_magic(bytes) {
        return Err(FrameError::BadMagic);
    }
    let version = bytes[5];
    if version > PROTOCOL_VERSION {
        return Err(FrameError::UnsupportedVersion(version));
    }
    let length = read_u32_be(bytes, 7);
    if length > MAX_PAYLOAD_LENGTH {
        return Err(FrameError::PayloadTooLarge(length));
    }
    Ok(FrameHeader { version, msg_type: bytes[6], length })
}

/// Reads the frame at the start of `bytes`: checks the header, then takes
/// exactly the declared number of payload bytes.
pub fn decode_frame(bytes: &[u8]) -> (r: Result<Frame, FrameError>)
    ensures
        match r {
            Ok(f) => frame_result(bytes@) == Ok::<(FrameHeader, Seq<u8>), FrameError>(
                (f.header, f.payload@),
            ),
            Err(e) => frame_result(bytes@) == Err::<(FrameHeader, Seq<u8>), FrameError>(e),
        },
{
    let header = match parse_header(bytes) {
        Ok(h) => h,
        Err(e) => {
            return Err(e);
        },
    };
    let len = header.length as usize;
    if bytes.len() - HEADER_LENGTH < len {
        return Err(FrameError::Truncated);
    }
    let total = bytes.len();
    let mut payload: Vec<u8> = Vec::new();
    let mut i: usize = 0;
    while i < len
        invariant
            i <= len,
            HEADER_LENGTH + len <= bytes@.len(),
            total == bytes@.len(),
            payload@ == bytes@.subrange(HEADER_LENGTH as int, HEADER_LENGTH + i),
        decreases len - i,
    {
        payload.push(bytes[HEADER_LENGTH + i]);
        assert(payload@ =~= bytes@.subrange(HEADER_LENGTH as int, HEADER_LENGTH + i + 1));
        i = i + 1;
    }
    Ok(Frame { header, payload })
}

/// The frame bytes for a payload of this type, or `None` when the version is
/// above the one supported or the payload is longer than the bound.
pub fn encode_frame(version: u8, msg_type: u8, payload: &[u8]) -> (r: Option<Vec<u8>>)
    ensures
        r is Some <==> (version <= PROTOCOL_VERSION && payload@.len() <= MAX_PAYLOAD_LENGTH),
        r matches Some(v) ==> v@ == frame_bytes(
            FrameHeader { version, msg_type, length: payload@.len() as u32 },
            payload@,
        ),
{
    if version > PROTOCOL_VERSION || payload.len() > MAX_PAYLOAD_LENGTH as usize {
        return None;
    }
    let mut out: Vec<u8> = Vec::new();
    out.push(66);
    out.push(76);
    out.push(79);
    out.push(67);
    out.push(75);
    out.push(version);
    out.push(msg_type);
    push_u32_be(&mut out, payload.len() as u32);
    out.extend_from_slice(payload);
    assert(out@ =~= frame_bytes(
        FrameHeader { version, msg_type, length: payload@.len() as u32 },
        payload@,
    ));
    Some(out)
}

/// A well-formed frame is accepted, whatever bytes follow it, with its header
/// and its exact payload.
pub proof fn lemma_frame_round_trip(h: FrameHeader, payload: Seq<u8>, rest: Seq<u8>)
    requires
        h.version <= PROTOCOL_VERSION,
        h.length <= MAX_PAYLOAD_LENGTH,
        payload.len() == h.length,
    ensures
        frame_result(frame_bytes(h, payload) + rest) == Ok::<(FrameHeader, Seq<u8>), FrameError>(
            (h, payload),
        ),
{
    let s = frame_bytes(h, payload) + rest;
    lemma_be_u32_round_trip(h.length);
    assert(s.subrange(0, 5) =~= magic());
    assert(s[5] == h.version);
    assert(s[6] == h.msg_type);
    assert(s.subrange(7, 11) =~= be_u32(h.length));
    assert(s.subrange(HEADER_LENGTH as int, HEADER_LENGTH + h.length) =~= payload);
}

/// A refusal rests on the header alone: when the first `HEADER_LENGTH` bytes
/// of two streams agree and the header is refused, both streams are refused
/// with the same error, whatever payload bytes follow and however many.
pub proof fn lemma_header_decides_refusal(a: Seq<u8>, b: Seq<u8>)
    requires
        a.len() >= HEADER_LENGTH,
        b.len() >= HEADER_LENGTH,
        a.subrange(0, HEADER_LENGTH as int) == b.subrange(0, HEADER_LENGTH as int),
        header_result(a) is Err,
    ensures
        header_result(b) == header_result(a),
        frame_result(b) == frame_result(a),
{
    let ha = a.subrange(0, HEADER_LENGTH as int);
    assert(a.subrange(0, 5) =~= ha.subrange(0, 5));
    assert(b.subrange(0, 5) =~= ha.subrange(0, 5));
    assert(a.subrange(7, 11) =~= ha.subrange(7, 11));
    assert(b.subrange(7, 11) =~= ha.subrange(7, 11));
    assert(a[5] == ha[5] && b[5] == ha[5]);
}

} // verus!
