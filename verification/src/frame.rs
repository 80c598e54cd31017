//! HTTP/2 frame layer: frame headers, frame types and flags, stream ids,
//! error codes, settings and the fixed-layout frame payloads.
//!
//! HTTP/2 <https://httpwg.org/specs/rfc9113.html>
use vstd::prelude::*;

use crate::bytes::{
    be_bytes, be_value, lemma_be_roundtrip, lemma_be_value_bound_and_encode, lemma_pow256_values,
    lemma_be_bytes_len, push_be_u16, push_be_u24, push_be_u32, read_be_u16, read_be_u24, read_be_u32,
};

verus! {

// ---------------------------------------------------------------------------
// Parse results
// ---------------------------------------------------------------------------
/// Why a parser did not produce a value.
#[derive(Debug, Clone, Copy, PartialEq, Eq, Structural)]
pub enum ParseError {
    /// More input is needed: at least this many more bytes.
    Incomplete(usize),
    /// The input can never match.
    Error,
}

/// A parser's result: the number of bytes consumed and the value, or why it failed.
pub type IResult<T> = Result<(usize, T), ParseError>;

/// This is sent by h2 clients after negotiating over ALPN, or when doing h2c.
pub open spec fn preface_spec() -> Seq<u8> {
    seq![
        0x50u8, 0x52, 0x49, 0x20, 0x2a, 0x20, 0x48, 0x54, 0x54, 0x50, 0x2f, 0x32, 0x2e, 0x30,
        0x0d, 0x0a, 0x0d, 0x0a, 0x53, 0x4d, 0x0d, 0x0a, 0x0d, 0x0a,
    ]
}

/// `PRI * HTTP/2.0\r\n\r\nSM\r\n\r\n`
pub fn preface_bytes() -> (r: Vec<u8>)
    ensures
        r@ == preface_spec(),
{
    let r = vec![
        0x50u8, 0x52, 0x49, 0x20, 0x2a, 0x20, 0x48, 0x54, 0x54, 0x50, 0x2f, 0x32, 0x2e, 0x30,
        0x0d, 0x0a, 0x0d, 0x0a, 0x53, 0x4d, 0x0d, 0x0a, 0x0d, 0x0a,
    ];
    assert(r@ =~= preface_spec());
    r
}

/// What a streaming `tag` parser answers for `tag` on input `i`.
pub open spec fn tag_result(tag: Seq<u8>, i: Seq<u8>) -> IResult<()> {
    let m = if i.len() < tag.len() { i.len() } else { tag.len() };
    if exists|k: int| 0 <= k < m && i[k] != tag[k] {
        Err(ParseError::Error)
    } else if i.len() < tag.len() {
        Err(ParseError::Incomplete((tag.len() - i.len()) as usize))
    } else {
        Ok((tag.len() as usize, ()))
    }
}

/// Streaming match of a fixed tag at the start of `i`.
pub fn parse_tag(tag: &[u8], i: &[u8]) -> (r: IResult<()>)
    ensures
        r == tag_result(tag@, i@),
{
    let m = if i.len() < tag.len() {
        i.len()
    } else {
        tag.len()
    };
    let mut k: usize = 0;
    while k < m
        invariant
            m == (if i@.len() < tag@.len() { i@.len() } else { tag@.len() }),
            k <= m,
            forall|j: int| 0 <= j < k ==> i@[j] == tag@[j],
        decreases m - k,
    {
        if i[k] != tag[k] {
            return Err(ParseError::Error);
        }
        k = k + 1;
    }
    if i.len() < tag.len() {
        Err(ParseError::Incomplete(tag.len() - i.len()))
    } else {
        Ok((tag.len(), ()))
    }
}

/// Matches the connection preface.
pub fn preface(i: &[u8]) -> (r: IResult<()>)
    ensures
        r == tag_result(preface_spec(), i@),
{
    let p = preface_bytes();
    parse_tag(p.as_slice(), i)
}

// ---------------------------------------------------------------------------
// Frame types and flags
// ---------------------------------------------------------------------------
/// See https://httpwg.org/specs/rfc9113.html#FrameTypes
#[derive(Debug, Clone, Copy, PartialEq, Eq, Structural)]
pub enum RawFrameType {
    Data,
    Headers,
    Priority,
    RstStream,
    Settings,
    PushPromise,
    Ping,
    GoAway,
    WindowUpdate,
    Continuation,
}

pub open spec fn raw_frame_type_code(t: RawFrameType) -> u8 {
    match t {
        RawFrameType::Data => 0x00,
        RawFrameType::Headers => 0x01,
        RawFrameType::Priority => 0x02,
        RawFrameType::RstStream => 0x03,
        RawFrameType::Settings => 0x04,
        RawFrameType::PushPromise => 0x05,
        RawFrameType::Ping => 0x06,
        RawFrameType::GoAway => 0x07,
        RawFrameType::WindowUpdate => 0x08,
        RawFrameType::Continuation => 0x09,
    }
}

pub open spec fn raw_frame_type_of(code: u8) -> Option<RawFrameType> {
    if code == 0 {
        Some(RawFrameType::Data)
    } else if code == 1 {
        Some(RawFrameType::Headers)
    } else if code == 2 {
        Some(RawFrameType::Priority)
    } else if code == 3 {
        Some(RawFrameType::RstStream)
    } else if code == 4 {
        Some(RawFrameType::Settings)
    } else if code == 5 {
        Some(RawFrameType::PushPromise)
    } else if code == 6 {
        Some(RawFrameType::Ping)
    } else if code == 7 {
        Some(RawFrameType::GoAway)
    } else if code == 8 {
        Some(RawFrameType::WindowUpdate)
    } else if code == 9 {
        Some(RawFrameType::Continuation)
    } else {
        None
    }
}

impl RawFrameType {
    /// The type's code on the wire.
    pub fn repr(self) -> (r: u8)
        ensures
            r == raw_frame_type_code(self),
    {
        match self {
            RawFrameType::Data => 0x00,
            RawFrameType::Headers => 0x01,
            RawFrameType::Priority => 0x02,
            RawFrameType::RstStream => 0x03,
            RawFrameType::Settings => 0x04,
            RawFrameType::PushPromise => 0x05,
            RawFrameType::Ping => 0x06,
            RawFrameType::GoAway => 0x07,
            RawFrameType::WindowUpdate => 0x08,
            RawFrameType::Continuation => 0x09,
        }
    }

    /// The frame type with the given code, if it is a known one.
    pub fn from_repr(code: u8) -> (r: Option<RawFrameType>)
        ensures
            r == raw_frame_type_of(code),
    {
        if code == 0 {
            Some(RawFrameType::Data)
        } else if code == 1 {
            Some(RawFrameType::Headers)
        } else if code == 2 {
            Some(RawFrameType::Priority)
        } else if code == 3 {
            Some(RawFrameType::RstStream)
        } else if code == 4 {
            Some(RawFrameType::Settings)
        } else if code == 5 {
            Some(RawFrameType::PushPromise)
        } else if code == 6 {
            Some(RawFrameType::Ping)
        } else if code == 7 {
            Some(RawFrameType::GoAway)
        } else if code == 8 {
            Some(RawFrameType::WindowUpdate)
        } else if code == 9 {
            Some(RawFrameType::Continuation)
        } else {
            None
        }
    }
}

/// Known codes and their frame types correspond one to one.
pub proof fn law_raw_frame_type_codes(t: RawFrameType, code: u8)
    ensures
        raw_frame_type_of(raw_frame_type_code(t)) == Some(t),
        raw_frame_type_of(code) matches Some(t2) ==> raw_frame_type_code(t2) == code,
        raw_frame_type_of(code) is None <==> code > 9,
{
}

/// A set of flag bits.
#[derive(Debug, Clone, Copy, PartialEq, Eq, Structural)]
pub struct BitFlags {
    pub bits: u8,
}

pub open spec fn has_flag(bits: u8, flag: u8) -> bool {
    bits & flag == flag
}

impl BitFlags {
    /// The empty set of flags.
    pub fn empty() -> (r: BitFlags)
        ensures
            r.bits == 0,
    {
        BitFlags { bits: 0 }
    }

    /// Keeps only the bits of `bits` that `mask` allows.
    pub fn from_bits_truncate(bits: u8, mask: u8) -> (r: BitFlags)
        ensures
            r.bits == bits & mask,
    {
        BitFlags { bits: bits & mask }
    }

    /// Returns the raw bits.
    pub fn bits(&self) -> (r: u8)
        ensures
            r == self.bits,
    {
        self.bits
    }

    /// Returns true when no flag is set.
    pub fn is_empty(&self) -> (r: bool)
        ensures
            r == (self.bits == 0),
    {
        self.bits == 0
    }

    /// Returns true when every bit of `flag` is set.
    pub fn contains(&self, flag: u8) -> (r: bool)
        ensures
            r == has_flag(self.bits, flag),
    {
        self.bits & flag == flag
    }

    /// Adds the bits of `flag`.
    pub fn with(self, flag: u8) -> (r: BitFlags)
        ensures
            r.bits == self.bits | flag,
    {
        BitFlags { bits: self.bits | flag }
    }
}

/// See https://httpwg.org/specs/rfc9113.html#DATA
#[derive(Debug, Clone, Copy, PartialEq, Eq, Structural)]
pub enum DataFlags {
    Padded,
    EndStream,
}

impl DataFlags {
    pub open spec fn spec_bits(self) -> u8 {
        match self {
            DataFlags::Padded => 0x08,
            DataFlags::EndStream => 0x01,
        }
    }

    pub fn bits(self) -> (r: u8)
        ensures
            r == self.spec_bits(),
    {
        match self {
            DataFlags::Padded => 0x08,
            DataFlags::EndStream => 0x01,
        }
    }
}

/// See https://httpwg.org/specs/rfc9113.html#rfc.section.6.2
#[derive(Debug, Clone, Copy, PartialEq, Eq, Structural)]
pub enum HeadersFlags {
    Priority,
    Padded,
    EndHeaders,
    EndStream,
}

impl HeadersFlags {
    pub open spec fn spec_bits(self) -> u8 {
        match self {
            HeadersFlags::Priority => 0x20,
            HeadersFlags::Padded => 0x08,
            HeadersFlags::EndHeaders => 0x04,
            HeadersFlags::EndStream => 0x01,
        }
    }

    pub fn bits(self) -> (r: u8)
        ensures
            r == self.spec_bits(),
    {
        match self {
            HeadersFlags::Priority => 0x20,
            HeadersFlags::Padded => 0x08,
            HeadersFlags::EndHeaders => 0x04,
            HeadersFlags::EndStream => 0x01,
        }
    }
}

/// See https://httpwg.org/specs/rfc9113.html#SETTINGS
#[derive(Debug, Clone, Copy, PartialEq, Eq, Structural)]
pub enum SettingsFlags {
    Ack,
}

impl SettingsFlags {
    pub open spec fn spec_bits(self) -> u8 {
        0x01
    }

    pub fn bits(self) -> (r: u8)
        ensures
            r == self.spec_bits(),
    {
        0x01
    }
}

/// See https://httpwg.org/specs/rfc9113.html#PING
#[derive(Debug, Clone, Copy, PartialEq, Eq, Structural)]
pub enum PingFlags {
    Ack,
}

impl PingFlags {
    pub open spec fn spec_bits(self) -> u8 {
        0x01
    }

    pub fn bits(self) -> (r: u8)
        ensures
            r == self.spec_bits(),
    {
        0x01
    }
}

/// See https://httpwg.org/specs/rfc9113.html#CONTINUATION
#[derive(Debug, Clone, Copy, PartialEq, Eq, Structural)]
pub enum ContinuationFlags {
    EndHeaders,
}

impl ContinuationFlags {
    pub open spec fn spec_bits(self) -> u8 {
        0x04
    }

    pub fn bits(self) -> (r: u8)
        ensures
            r == self.spec_bits(),
    {
        0x04
    }
}

/// All flags that DATA frames define.
pub const DATA_FLAGS_MASK: u8 = 0x09;

/// All flags that HEADERS frames define.
pub const HEADERS_FLAGS_MASK: u8 = 0x2d;

/// All flags that SETTINGS frames define.
pub const SETTINGS_FLAGS_MASK: u8 = 0x01;

/// All flags that PING frames define.
pub const PING_FLAGS_MASK: u8 = 0x01;

/// All flags that CONTINUATION frames define.
pub const CONTINUATION_FLAGS_MASK: u8 = 0x04;

/// A frame type and flags, as they appear on the wire.
#[derive(Debug, Clone, Copy, PartialEq, Eq, Structural)]
pub struct EncodedFrameType {
    pub ty: u8,
    pub flags: u8,
}

impl EncodedFrameType {
    /// Parses the two bytes that hold the type and the flags.
    pub fn parse(i: &[u8]) -> (r: IResult<EncodedFrameType>)
        ensures
            i@.len() >= 2 ==> r == Ok::<_, ParseError>(
                (2usize, EncodedFrameType { ty: i@[0], flags: i@[1] }),
            ),
            i@.len() == 1 ==> r == Err::<(usize, EncodedFrameType), _>(ParseError::Incomplete(1)),
            i@.len() == 0 ==> r == Err::<(usize, EncodedFrameType), _>(ParseError::Incomplete(1)),
    {
        if i.len() < 1 {
            return Err(ParseError::Incomplete(1));
        }
        if i.len() < 2 {
            return Err(ParseError::Incomplete(1));
        }
        Ok((2, EncodedFrameType { ty: i[0], flags: i[1] }))
    }

    /// Builds the wire form of a known frame type with the given flag bits.
    pub fn from_raw(ty: RawFrameType, flags: u8) -> (r: EncodedFrameType)
        ensures
            r == (EncodedFrameType { ty: raw_frame_type_code(ty), flags }),
    {
        EncodedFrameType { ty: ty.repr(), flags }
    }
}

/// Typed flags for various frame types
#[derive(Debug, Clone, Copy, PartialEq, Eq, Structural)]
pub enum FrameType {
    Data(BitFlags),
    Headers(BitFlags),
    Priority,
    RstStream,
    Settings(BitFlags),
    PushPromise,
    Ping(BitFlags),
    GoAway,
    WindowUpdate,
    Continuation(BitFlags),
    Unknown(EncodedFrameType),
}

pub open spec fn frame_type_encode(ft: FrameType) -> EncodedFrameType {
    match ft {
        FrameType::Data(f) => EncodedFrameType { ty: 0, flags: f.bits },
        FrameType::Headers(f) => EncodedFrameType { ty: 1, flags: f.bits },
        FrameType::Priority => EncodedFrameType { ty: 2, flags: 0 },
        FrameType::RstStream => EncodedFrameType { ty: 3, flags: 0 },
        FrameType::Settings(f) => EncodedFrameType { ty: 4, flags: f.bits },
        FrameType::PushPromise => EncodedFrameType { ty: 5, flags: 0 },
        FrameType::Ping(f) => EncodedFrameType { ty: 6, flags: f.bits },
        FrameType::GoAway => EncodedFrameType { ty: 7, flags: 0 },
        FrameType::WindowUpdate => EncodedFrameType { ty: 8, flags: 0 },
        FrameType::Continuation(f) => EncodedFrameType { ty: 9, flags: f.bits },
        FrameType::Unknown(e) => e,
    }
}

pub open spec fn frame_type_decode(e: EncodedFrameType) -> FrameType {
    if e.ty == 0 {
        FrameType::Data(BitFlags { bits: e.flags & DATA_FLAGS_MASK })
    } else if e.ty == 1 {
        FrameType::Headers(BitFlags { bits: e.flags & HEADERS_FLAGS_MASK })
    } else if e.ty == 2 {
        FrameType::Priority
    } else if e.ty == 3 {
        FrameType::RstStream
    } else if e.ty == 4 {
        FrameType::Settings(BitFlags { bits: e.flags & SETTINGS_FLAGS_MASK })
    } else if e.ty == 5 {
        FrameType::PushPromise
    } else if e.ty == 6 {
        FrameType::Ping(BitFlags { bits: e.flags & PING_FLAGS_MASK })
    } else if e.ty == 7 {
        FrameType::GoAway
    } else if e.ty == 8 {
        FrameType::WindowUpdate
    } else if e.ty == 9 {
        FrameType::Continuation(BitFlags { bits: e.flags & CONTINUATION_FLAGS_MASK })
    } else {
        FrameType::Unknown(e)
    }
}

/// A frame type that decoding can produce: the flags hold only defined bits,
/// and an unknown type has a code that no known type uses.
pub open spec fn frame_type_canonical(ft: FrameType) -> bool {
    match ft {
        FrameType::Data(f) => f.bits & DATA_FLAGS_MASK == f.bits,
        FrameType::Headers(f) => f.bits & HEADERS_FLAGS_MASK == f.bits,
        FrameType::Settings(f) => f.bits & SETTINGS_FLAGS_MASK == f.bits,
        FrameType::Ping(f) => f.bits & PING_FLAGS_MASK == f.bits,
        FrameType::Continuation(f) => f.bits & CONTINUATION_FLAGS_MASK == f.bits,
        FrameType::Unknown(e) => e.ty > 9,
        _ => true,
    }
}

/// A wire type and flags that decoding keeps intact: unknown types, and known
/// types whose flags use only defined bits (types without flags: none set).
pub open spec fn encoded_frame_type_canonical(e: EncodedFrameType) -> bool {
    if e.ty == 0 {
        e.flags & DATA_FLAGS_MASK == e.flags
    } else if e.ty == 1 {
        e.flags & HEADERS_FLAGS_MASK == e.flags
    } else if e.ty == 4 {
        e.flags & SETTINGS_FLAGS_MASK == e.flags
    } else if e.ty == 6 {
        e.flags & PING_FLAGS_MASK == e.flags
    } else if e.ty == 9 {
        e.flags & CONTINUATION_FLAGS_MASK == e.flags
    } else if e.ty <= 9 {
        e.flags == 0
    } else {
        true
    }
}

impl FrameType {
    /// Turn this [FrameType] into a [Frame]
    pub fn into_frame(self, stream_id: StreamId) -> (r: Frame)
        ensures
            r == (Frame { frame_type: self, len: 0, reserved: 0, stream_id }),
    {
        Frame { frame_type: self, len: 0, reserved: 0, stream_id }
    }

    /// The wire form of this frame type.
    pub fn encode(self) -> (r: EncodedFrameType)
        ensures
            r == frame_type_encode(self),
    {
        match self {
            FrameType::Data(f) => EncodedFrameType::from_raw(RawFrameType::Data, f.bits),
            FrameType::Headers(f) => EncodedFrameType::from_raw(RawFrameType::Headers, f.bits),
            FrameType::Priority => EncodedFrameType::from_raw(RawFrameType::Priority, 0),
            FrameType::RstStream => EncodedFrameType::from_raw(RawFrameType::RstStream, 0),
            FrameType::Settings(f) => EncodedFrameType::from_raw(RawFrameType::Settings, f.bits),
            FrameType::PushPromise => EncodedFrameType::from_raw(RawFrameType::PushPromise, 0),
            FrameType::Ping(f) => EncodedFrameType::from_raw(RawFrameType::Ping, f.bits),
            FrameType::GoAway => EncodedFrameType::from_raw(RawFrameType::GoAway, 0),
            FrameType::WindowUpdate => EncodedFrameType::from_raw(RawFrameType::WindowUpdate, 0),
            FrameType::Continuation(f) => EncodedFrameType::from_raw(
                RawFrameType::Continuation,
                f.bits,
            ),
            FrameType::Unknown(ft) => ft,
        }
    }

    /// The typed form of a wire type: flags that the type does not define are dropped.
    pub fn decode(ft: EncodedFrameType) -> (r: FrameType)
        ensures
            r == frame_type_decode(ft),
    {
        match RawFrameType::from_repr(ft.ty) {
            Some(ty) => match ty {
                RawFrameType::Data => FrameType::Data(
                    BitFlags::from_bits_truncate(ft.flags, DATA_FLAGS_MASK),
                ),
                RawFrameType::Headers => FrameType::Headers(
                    BitFlags::from_bits_truncate(ft.flags, HEADERS_FLAGS_MASK),
                ),
                RawFrameType::Priority => FrameType::Priority,
                RawFrameType::RstStream => FrameType::RstStream,
                RawFrameType::Settings => FrameType::Settings(
                    BitFlags::from_bits_truncate(ft.flags, SETTINGS_FLAGS_MASK),
                ),
                RawFrameType::PushPromise => FrameType::PushPromise,
                RawFrameType::Ping => FrameType::Ping(
                    BitFlags::from_bits_truncate(ft.flags, PING_FLAGS_MASK),
                ),
                RawFrameType::GoAway => FrameType::GoAway,
                RawFrameType::WindowUpdate => FrameType::WindowUpdate,
                RawFrameType::Continuation => FrameType::Continuation(
                    BitFlags::from_bits_truncate(ft.flags, CONTINUATION_FLAGS_MASK),
                ),
            },
            None => FrameType::Unknown(ft),
        }
    }
}

/// Decoding undoes encoding for every frame type that decoding can produce.
pub proof fn law_frame_type_decode_encode(ft: FrameType)
    requires
        frame_type_canonical(ft),
    ensures
        frame_type_decode(frame_type_encode(ft)) == ft,
{
}

/// Encoding undoes decoding exactly on the canonical wire forms.
pub proof fn law_frame_type_encode_decode(e: EncodedFrameType)
    ensures
        frame_type_canonical(frame_type_decode(e)),
        frame_type_encode(frame_type_decode(e)) == e <==> encoded_frame_type_canonical(e),
{
    let m = e.flags;
    assert(m & DATA_FLAGS_MASK & DATA_FLAGS_MASK == m & DATA_FLAGS_MASK) by (bit_vector);
    assert(m & HEADERS_FLAGS_MASK & HEADERS_FLAGS_MASK == m & HEADERS_FLAGS_MASK) by (bit_vector);
    assert(m & SETTINGS_FLAGS_MASK & SETTINGS_FLAGS_MASK == m & SETTINGS_FLAGS_MASK)
        by (bit_vector);
    assert(m & CONTINUATION_FLAGS_MASK & CONTINUATION_FLAGS_MASK == m & CONTINUATION_FLAGS_MASK)
        by (bit_vector);
}


// ---------------------------------------------------------------------------
// Stream ids and frame headers
// ---------------------------------------------------------------------------
#[derive(Debug, Clone, Copy, PartialEq, Eq, Structural, Hash, PartialOrd, Ord)]
pub struct StreamId(pub u32);

/// A value with the high bit set cannot be a stream id.
#[derive(Debug, Clone, Copy, PartialEq, Eq, Structural)]
pub struct StreamIdOutOfRange(pub u32);

impl StreamId {
    /// Stream ID used for connection control frames
    pub fn connection() -> (r: StreamId)
        ensures
            r.0 == 0,
    {
        StreamId(0)
    }

    /// Server-initiated streams have even IDs
    pub fn is_server_initiated(&self) -> (r: bool)
        ensures
            r == (self.0 % 2 == 0),
    {
        self.0 % 2 == 0
    }

    /// A stream id from a 32-bit value, refused if the reserved high bit is set.
    pub fn try_from_u32(value: u32) -> (r: Result<StreamId, StreamIdOutOfRange>)
        ensures
            value < 0x8000_0000 ==> r == Ok::<_, StreamIdOutOfRange>(StreamId(value)),
            value >= 0x8000_0000 ==> r == Err::<StreamId, _>(StreamIdOutOfRange(value)),
    {
        if value >= 0x8000_0000 {
            Err(StreamIdOutOfRange(value))
        } else {
            Ok(StreamId(value))
        }
    }
}

/// See https://httpwg.org/specs/rfc9113.html#FrameHeader
#[derive(Debug, Clone, Copy, PartialEq, Eq, Structural)]
pub struct Frame {
    pub frame_type: FrameType,
    pub reserved: u8,
    pub stream_id: StreamId,
    pub len: u32,
}

/// The frame header that the 9 bytes `s` encode.
pub open spec fn frame_of_bytes(s: Seq<u8>) -> Frame {
    Frame {
        len: be_value(s.subrange(0, 3)) as u32,
        frame_type: frame_type_decode(EncodedFrameType { ty: s[3], flags: s[4] }),
        reserved: (be_value(s.subrange(5, 9)) / 0x8000_0000) as u8,
        stream_id: StreamId((be_value(s.subrange(5, 9)) % 0x8000_0000) as u32),
    }
}

/// How many more bytes the frame header parser asks for, given `n` bytes.
pub open spec fn frame_needed(n: nat) -> usize {
    if n < 3 {
        (3 - n) as usize
    } else if n < 5 {
        1
    } else {
        (9 - n) as usize
    }
}

/// A frame header that can be written: the length fits in 24 bits, the
/// reserved bit is 0 or 1 and the stream id fits in 31 bits.
pub open spec fn frame_writable(f: Frame) -> bool {
    &&& f.len < 0x100_0000
    &&& f.reserved <= 1
    &&& f.stream_id.0 < 0x8000_0000
}

/// The 9 bytes that encode a frame header.
pub open spec fn frame_bytes(f: Frame) -> Seq<u8> {
    be_bytes(f.len as nat, 3) + seq![
        frame_type_encode(f.frame_type).ty,
        frame_type_encode(f.frame_type).flags,
    ] + bit_and_u31_bytes(f.reserved, f.stream_id.0)
}

impl Frame {
    /// A frame with the given type and stream ID, no length and no reserved bit.
    pub fn new(frame_type: FrameType, stream_id: StreamId) -> (r: Frame)
        ensures
            r == (Frame { frame_type, reserved: 0, stream_id, len: 0 }),
    {
        Frame { frame_type, reserved: 0, stream_id, len: 0 }
    }

    /// The frame used before any frame was read: an unknown type 0xff with flags 0xff.
    pub fn default_frame() -> (r: Frame)
        ensures
            r == (Frame {
                frame_type: FrameType::Unknown(EncodedFrameType { ty: 0xff, flags: 0xff }),
                reserved: 0,
                stream_id: StreamId(0),
                len: 0,
            }),
    {
        Frame {
            frame_type: FrameType::Unknown(EncodedFrameType { ty: 0xff, flags: 0xff }),
            reserved: 0,
            stream_id: StreamId(0),
            len: 0,
        }
    }

    /// Set the frame's length.
    pub fn with_len(self, len: u32) -> (r: Frame)
        ensures
            r == (Frame { len, ..self }),
    {
        let mut f = self;
        f.len = len;
        f
    }

    /// Parses a 9-byte frame header.
    pub fn parse(i: &[u8]) -> (r: IResult<Frame>)
        ensures
            i@.len() >= 9 ==> r == Ok::<_, ParseError>((9usize, frame_of_bytes(i@))),
            i@.len() < 9 ==> r == Err::<(usize, Frame), _>(
                ParseError::Incomplete(frame_needed(i@.len())),
            ),
    {
        if i.len() < 3 {
            return Err(ParseError::Incomplete(3 - i.len()));
        }
        let len = read_be_u24(i, 0);
        if i.len() < 5 {
            return Err(ParseError::Incomplete(1));
        }
        let ft = EncodedFrameType { ty: i[3], flags: i[4] };
        if i.len() < 9 {
            return Err(ParseError::Incomplete(9 - i.len()));
        }
        let x = read_be_u32(i, 5);
        let frame = Frame {
            frame_type: FrameType::decode(ft),
            reserved: (x / 0x8000_0000) as u8,
            stream_id: StreamId(x % 0x8000_0000),
            len,
        };
        Ok((9, frame))
    }

    /// Appends the 9-byte encoding of this frame header.
    pub fn write_into(&self, out: &mut Vec<u8>)
        requires
            frame_writable(*self),
        ensures
            final(out)@ == old(out)@ + frame_bytes(*self),
    {
        let ghost start = out@;
        push_be_u24(out, self.len);
        let ft = self.frame_type.encode();
        out.push(ft.ty);
        out.push(ft.flags);
        let packed = pack_bit_and_u31(self.reserved, self.stream_id.0);
        out.push(packed[0]);
        out.push(packed[1]);
        out.push(packed[2]);
        out.push(packed[3]);
        assert(out@ =~= start + frame_bytes(*self));
    }

    /// Returns true if this frame is an ack
    pub fn is_ack(&self) -> (r: bool)
        ensures
            r == match self.frame_type {
                FrameType::Settings(f) => has_flag(f.bits, 0x01),
                FrameType::Ping(f) => has_flag(f.bits, 0x01),
                _ => false,
            },
    {
        match self.frame_type {
            FrameType::Settings(flags) => flags.contains(SettingsFlags::Ack.bits()),
            FrameType::Ping(flags) => flags.contains(PingFlags::Ack.bits()),
            _ => false,
        }
    }

    /// Returns true if this frame has `EndHeaders` set
    pub fn is_end_headers(&self) -> (r: bool)
        ensures
            r == match self.frame_type {
                FrameType::Headers(f) => has_flag(f.bits, 0x04),
                FrameType::Continuation(f) => has_flag(f.bits, 0x04),
                _ => false,
            },
    {
        match self.frame_type {
            FrameType::Headers(flags) => flags.contains(HeadersFlags::EndHeaders.bits()),
            FrameType::Continuation(flags) => flags.contains(ContinuationFlags::EndHeaders.bits()),
            _ => false,
        }
    }

    /// Returns true if this frame has `EndStream` set
    pub fn is_end_stream(&self) -> (r: bool)
        ensures
            r == match self.frame_type {
                FrameType::Data(f) => has_flag(f.bits, 0x01),
                FrameType::Headers(f) => has_flag(f.bits, 0x01),
                _ => false,
            },
    {
        match self.frame_type {
            FrameType::Data(flags) => flags.contains(DataFlags::EndStream.bits()),
            FrameType::Headers(flags) => flags.contains(HeadersFlags::EndStream.bits()),
            _ => false,
        }
    }
}

// ---------------------------------------------------------------------------
// One bit and 31 bits
// ---------------------------------------------------------------------------
/// The 4 bytes that hold `bit` in the high bit and `val` in the low 31 bits.
pub open spec fn bit_and_u31_bytes(bit: u8, val: u32) -> Seq<u8> {
    be_bytes(bit as nat * 0x8000_0000 + val as nat, 4)
}

/// See https://httpwg.org/specs/rfc9113.html#FrameHeader - the first bit
/// is reserved, and the rest is a 31-bit stream id
pub fn parse_bit_and_u31(i: &[u8]) -> (r: IResult<(u8, u32)>)
    ensures
        i@.len() >= 4 ==> r == Ok::<_, ParseError>(
            (
                4usize,
                (
                    (be_value(i@.subrange(0, 4)) / 0x8000_0000) as u8,
                    (be_value(i@.subrange(0, 4)) % 0x8000_0000) as u32,
                ),
            ),
        ),
        i@.len() < 4 ==> r == Err::<(usize, (u8, u32)), _>(
            ParseError::Incomplete((4 - i@.len()) as usize),
        ),
{
    if i.len() < 4 {
        return Err(ParseError::Incomplete(4 - i.len()));
    }
    let x = read_be_u32(i, 0);
    let bit = (x / 0x8000_0000) as u8;
    let val = x % 0x8000_0000;
    Ok((4, (bit, val)))
}

/// Pack a bit and a u31 into a 4-byte array (big-endian)
pub fn pack_bit_and_u31(bit: u8, val: u32) -> (r: [u8; 4])
    requires
        val < 0x8000_0000,
        bit <= 1,
    ensures
        r@ == bit_and_u31_bytes(bit, val),
{
    let x: u32 = if bit != 0 {
        val + 0x8000_0000
    } else {
        val
    };
    let mut v: Vec<u8> = Vec::new();
    push_be_u32(&mut v, x);
    proof {
        lemma_be_bytes_len(x as nat, 4);
    }
    let r = [v[0], v[1], v[2], v[3]];
    assert(r@ =~= v@);
    r
}

pub fn pack_reserved_and_stream_id(reserved: u8, stream_id: StreamId) -> (r: [u8; 4])
    requires
        stream_id.0 < 0x8000_0000,
        reserved <= 1,
    ensures
        r@ == bit_and_u31_bytes(reserved, stream_id.0),
{
    pack_bit_and_u31(reserved, stream_id.0)
}

/// Reading back a packed bit and 31-bit value gives them back.
pub proof fn law_bit_and_u31_roundtrip(bit: u8, val: u32)
    requires
        bit <= 1,
        val < 0x8000_0000,
    ensures
        bit_and_u31_bytes(bit, val).len() == 4,
        be_value(bit_and_u31_bytes(bit, val)) / 0x8000_0000 == bit as nat,
        be_value(bit_and_u31_bytes(bit, val)) % 0x8000_0000 == val as nat,
{
    lemma_pow256_values();
    let x = bit as nat * 0x8000_0000 + val as nat;
    lemma_be_roundtrip(x, 4);
    assert(x / 0x8000_0000 == bit as nat && x % 0x8000_0000 == val as nat) by (nonlinear_arith)
        requires
            x == bit as nat * 0x8000_0000 + val as nat,
            bit <= 1,
            val < 0x8000_0000,
    ;
}

/// Packing what was read from 4 bytes gives those bytes back.
pub proof fn law_bit_and_u31_bytes_roundtrip(s: Seq<u8>)
    requires
        s.len() == 4,
    ensures
        bit_and_u31_bytes(
            (be_value(s) / 0x8000_0000) as u8,
            (be_value(s) % 0x8000_0000) as u32,
        ) == s,
{
    lemma_pow256_values();
    lemma_be_value_bound_and_encode(s);
    let x = be_value(s);
    assert(x / 0x8000_0000 <= 1);
    assert(((x / 0x8000_0000) as u8) as nat * 0x8000_0000 + ((x % 0x8000_0000) as u32) as nat
        == x);
}

/// Reading a written frame header gives the frame back.
pub proof fn law_frame_roundtrip(f: Frame)
    requires
        frame_writable(f),
        frame_type_canonical(f.frame_type),
    ensures
        frame_bytes(f).len() == 9,
        frame_of_bytes(frame_bytes(f)) == f,
{
    lemma_pow256_values();
    lemma_be_roundtrip(f.len as nat, 3);
    law_bit_and_u31_roundtrip(f.reserved, f.stream_id.0);
    let s = frame_bytes(f);
    assert(s.subrange(0, 3) =~= be_bytes(f.len as nat, 3));
    assert(s.subrange(5, 9) =~= bit_and_u31_bytes(f.reserved, f.stream_id.0));
    law_frame_type_decode_encode(f.frame_type);
}

/// Writing a parsed frame header gives the bytes back exactly when its type
/// and flags are canonical.
pub proof fn law_frame_bytes_roundtrip(s: Seq<u8>)
    requires
        s.len() == 9,
    ensures
        frame_writable(frame_of_bytes(s)),
        frame_bytes(frame_of_bytes(s)) == s <==> encoded_frame_type_canonical(
            EncodedFrameType { ty: s[3], flags: s[4] },
        ),
{
    lemma_pow256_values();
    let f = frame_of_bytes(s);
    let e = EncodedFrameType { ty: s[3], flags: s[4] };
    lemma_be_value_bound_and_encode(s.subrange(0, 3));
    lemma_be_value_bound_and_encode(s.subrange(5, 9));
    law_bit_and_u31_bytes_roundtrip(s.subrange(5, 9));
    law_frame_type_encode_decode(e);
    let w = frame_bytes(f);
    if encoded_frame_type_canonical(e) {
        assert(w =~= s);
    } else {
        assert(w[3] != s[3] || w[4] != s[4]);
    }
}


// ---------------------------------------------------------------------------
// Error codes
// ---------------------------------------------------------------------------
#[derive(Debug, Clone, Copy, PartialEq, Eq, Structural)]
pub struct ErrorCode(pub u32);

impl ErrorCode {
    /// Returns the underlying u32
    pub fn as_repr(self) -> (r: u32)
        ensures
            r == self.0,
    {
        self.0
    }

    /// The code of a known error.
    pub fn from_known(e: KnownErrorCode) -> (r: ErrorCode)
        ensures
            r.0 == known_error_code_value(e),
    {
        ErrorCode(e.repr())
    }
}

#[derive(Debug, Clone, Copy, PartialEq, Eq, Structural)]
pub enum KnownErrorCode {
    /// The associated condition is not a result of an error. For example, a
    /// GOAWAY might include this code to indicate graceful shutdown of a
    /// connection.
    NoError,
    /// The endpoint detected an unspecific protocol error.
    ProtocolError,
    /// The endpoint encountered an unexpected internal error.
    InternalError,
    /// The endpoint detected that its peer violated the flow-control protocol.
    FlowControlError,
    /// The endpoint sent a SETTINGS frame but did not receive a response in a
    /// timely manner.
    SettingsTimeout,
    /// The endpoint received a frame after a stream was half-closed.
    StreamClosed,
    /// The endpoint received a frame with an invalid size.
    FrameSizeError,
    /// The endpoint refused the stream prior to performing any application
    /// processing.
    RefusedStream,
    /// The endpoint uses this error code to indicate that the stream is no
    /// longer needed.
    Cancel,
    /// The endpoint is unable to maintain the field section compression context
    /// for the connection.
    CompressionError,
    /// The connection established in response to a CONNECT request was reset
    /// or abnormally closed.
    ConnectError,
    /// The endpoint detected that its peer is exhibiting a behavior that might
    /// be generating excessive load.
    EnhanceYourCalm,
    /// The underlying transport has properties that do not meet minimum
    /// security requirements.
    InadequateSecurity,
    /// The endpoint requires that HTTP/1.1 be used instead of HTTP/2.
    Http1_1Required,
}

pub open spec fn known_error_code_value(e: KnownErrorCode) -> u32 {
    match e {
        KnownErrorCode::NoError => 0x00,
        KnownErrorCode::ProtocolError => 0x01,
        KnownErrorCode::InternalError => 0x02,
        KnownErrorCode::FlowControlError => 0x03,
        KnownErrorCode::SettingsTimeout => 0x04,
        KnownErrorCode::StreamClosed => 0x05,
        KnownErrorCode::FrameSizeError => 0x06,
        KnownErrorCode::RefusedStream => 0x07,
        KnownErrorCode::Cancel => 0x08,
        KnownErrorCode::CompressionError => 0x09,
        KnownErrorCode::ConnectError => 0x0a,
        KnownErrorCode::EnhanceYourCalm => 0x0b,
        KnownErrorCode::InadequateSecurity => 0x0c,
        KnownErrorCode::Http1_1Required => 0x0d,
    }
}

pub open spec fn known_error_code_of(v: u32) -> Option<KnownErrorCode> {
    if v == 0x00 {
        Some(KnownErrorCode::NoError)
    } else if v == 0x01 {
        Some(KnownErrorCode::ProtocolError)
    } else if v == 0x02 {
        Some(KnownErrorCode::InternalError)
    } else if v == 0x03 {
        Some(KnownErrorCode::FlowControlError)
    } else if v == 0x04 {
        Some(KnownErrorCode::SettingsTimeout)
    } else if v == 0x05 {
        Some(KnownErrorCode::StreamClosed)
    } else if v == 0x06 {
        Some(KnownErrorCode::FrameSizeError)
    } else if v == 0x07 {
        Some(KnownErrorCode::RefusedStream)
    } else if v == 0x08 {
        Some(KnownErrorCode::Cancel)
    } else if v == 0x09 {
        Some(KnownErrorCode::CompressionError)
    } else if v == 0x0a {
        Some(KnownErrorCode::ConnectError)
    } else if v == 0x0b {
        Some(KnownErrorCode::EnhanceYourCalm)
    } else if v == 0x0c {
        Some(KnownErrorCode::InadequateSecurity)
    } else if v == 0x0d {
        Some(KnownErrorCode::Http1_1Required)
    } else {
        None
    }
}

impl KnownErrorCode {
    /// The code's value on the wire.
    pub fn repr(self) -> (r: u32)
        ensures
            r == known_error_code_value(self),
    {
        match self {
            KnownErrorCode::NoError => 0x00,
            KnownErrorCode::ProtocolError => 0x01,
            KnownErrorCode::InternalError => 0x02,
            KnownErrorCode::FlowControlError => 0x03,
            KnownErrorCode::SettingsTimeout => 0x04,
            KnownErrorCode::StreamClosed => 0x05,
            KnownErrorCode::FrameSizeError => 0x06,
            KnownErrorCode::RefusedStream => 0x07,
            KnownErrorCode::Cancel => 0x08,
            KnownErrorCode::CompressionError => 0x09,
            KnownErrorCode::ConnectError => 0x0a,
            KnownErrorCode::EnhanceYourCalm => 0x0b,
            KnownErrorCode::InadequateSecurity => 0x0c,
            KnownErrorCode::Http1_1Required => 0x0d,
        }
    }

    /// The known error with the given value, if any.
    pub fn from_repr(v: u32) -> (r: Option<KnownErrorCode>)
        ensures
            r == known_error_code_of(v),
    {
        if v == 0x00 {
            Some(KnownErrorCode::NoError)
        } else if v == 0x01 {
            Some(KnownErrorCode::ProtocolError)
        } else if v == 0x02 {
            Some(KnownErrorCode::InternalError)
        } else if v == 0x03 {
            Some(KnownErrorCode::FlowControlError)
        } else if v == 0x04 {
            Some(KnownErrorCode::SettingsTimeout)
        } else if v == 0x05 {
            Some(KnownErrorCode::StreamClosed)
        } else if v == 0x06 {
            Some(KnownErrorCode::FrameSizeError)
        } else if v == 0x07 {
            Some(KnownErrorCode::RefusedStream)
        } else if v == 0x08 {
            Some(KnownErrorCode::Cancel)
        } else if v == 0x09 {
            Some(KnownErrorCode::CompressionError)
        } else if v == 0x0a {
            Some(KnownErrorCode::ConnectError)
        } else if v == 0x0b {
            Some(KnownErrorCode::EnhanceYourCalm)
        } else if v == 0x0c {
            Some(KnownErrorCode::InadequateSecurity)
        } else if v == 0x0d {
            Some(KnownErrorCode::Http1_1Required)
        } else {
            None
        }
    }

    /// The known error that an error code stands for; `Err(())` for unknown codes.
    pub fn try_from_code(e: ErrorCode) -> (r: Result<KnownErrorCode, ()>)
        ensures
            r == match known_error_code_of(e.0) {
                Some(k) => Ok::<KnownErrorCode, ()>(k),
                None => Err(()),
            },
    {
        match KnownErrorCode::from_repr(e.0) {
            Some(k) => Ok(k),
            None => Err(()),
        }
    }
}

/// Known error codes and their values correspond one to one.
pub proof fn law_known_error_codes(e: KnownErrorCode, v: u32)
    ensures
        known_error_code_of(known_error_code_value(e)) == Some(e),
        known_error_code_of(v) matches Some(k) ==> known_error_code_value(k) == v,
        known_error_code_of(v) is None <==> v > 0x0d,
{
}

// ---------------------------------------------------------------------------
// Settings
// ---------------------------------------------------------------------------
/// cf. https://httpwg.org/specs/rfc9113.html#SettingValues
#[derive(Debug, Clone, Copy, PartialEq, Eq, Structural)]
pub struct Settings {
    /// The maximum size of the compression table used to decode field blocks,
    /// in octets. The initial value is 4,096 octets.
    pub header_table_size: u32,
    /// Whether server push is enabled. The initial value for a server is 0.
    pub enable_push: bool,
    /// The maximum number of concurrent streams that the sender will allow.
    pub max_concurrent_streams: Option<u32>,
    /// The sender's initial window size for stream-level flow control. At most
    /// 2^31-1.
    pub initial_window_size: u32,
    /// The size of the largest frame payload that the sender is willing to
    /// receive: between 2^14 and 2^24-1 inclusive.
    pub max_frame_size: u32,
    /// The maximum field section size that the sender is prepared to accept.
    pub max_header_list_size: u32,
}

#[derive(Debug, Clone, Copy, PartialEq, Eq, Structural)]
pub enum SettingsError {
    /// ENABLE_PUSH setting is supposed to be either 0 or 1
    InvalidEnablePushValue { actual: u32 },
    /// INITIAL_WINDOW_SIZE should be less than or equal to 2^31-1
    InitialWindowSizeTooLarge { actual: u32 },
    /// SETTINGS_MAX_FRAME_SIZE should be between 2^14 and 2^24-1 inclusive
    SettingsMaxFrameSizeInvalid { actual: u32 },
}

#[derive(Debug, Clone, Copy, PartialEq, Eq, Structural)]
pub enum Setting {
    HeaderTableSize,
    EnablePush,
    MaxConcurrentStreams,
    InitialWindowSize,
    MaxFrameSize,
    MaxHeaderListSize,
}

pub open spec fn setting_id(s: Setting) -> u16 {
    match s {
        Setting::HeaderTableSize => 0x01,
        Setting::EnablePush => 0x02,
        Setting::MaxConcurrentStreams => 0x03,
        Setting::InitialWindowSize => 0x04,
        Setting::MaxFrameSize => 0x05,
        Setting::MaxHeaderListSize => 0x06,
    }
}

pub open spec fn setting_of_id(id: u16) -> Option<Setting> {
    if id == 1 {
        Some(Setting::HeaderTableSize)
    } else if id == 2 {
        Some(Setting::EnablePush)
    } else if id == 3 {
        Some(Setting::MaxConcurrentStreams)
    } else if id == 4 {
        Some(Setting::InitialWindowSize)
    } else if id == 5 {
        Some(Setting::MaxFrameSize)
    } else if id == 6 {
        Some(Setting::MaxHeaderListSize)
    } else {
        None
    }
}

impl Setting {
    /// The setting's identifier on the wire.
    pub fn repr(self) -> (r: u16)
        ensures
            r == setting_id(self),
    {
        match self {
            Setting::HeaderTableSize => 0x01,
            Setting::EnablePush => 0x02,
            Setting::MaxConcurrentStreams => 0x03,
            Setting::InitialWindowSize => 0x04,
            Setting::MaxFrameSize => 0x05,
            Setting::MaxHeaderListSize => 0x06,
        }
    }

    /// The known setting with the given identifier, if any.
    pub fn from_repr(id: u16) -> (r: Option<Setting>)
        ensures
            r == setting_of_id(id),
    {
        if id == 1 {
            Some(Setting::HeaderTableSize)
        } else if id == 2 {
            Some(Setting::EnablePush)
        } else if id == 3 {
            Some(Setting::MaxConcurrentStreams)
        } else if id == 4 {
            Some(Setting::InitialWindowSize)
        } else if id == 5 {
            Some(Setting::MaxFrameSize)
        } else if id == 6 {
            Some(Setting::MaxHeaderListSize)
        } else {
            None
        }
    }
}

/// The largest initial window size a peer may announce: 2^31-1.
pub const MAX_INITIAL_WINDOW_SIZE: u32 = 0x7fff_ffff;

/// The smallest max frame size a peer may announce: 2^14.
pub const MIN_MAX_FRAME_SIZE: u32 = 0x4000;

/// The largest max frame size a peer may announce: 2^24-1.
pub const MAX_MAX_FRAME_SIZE: u32 = 0xff_ffff;

/// The settings after applying `code = value`, or the error that refuses it.
pub open spec fn settings_apply(s: Settings, code: Setting, value: u32) -> Result<
    Settings,
    SettingsError,
> {
    match code {
        Setting::HeaderTableSize => Ok(Settings { header_table_size: value, ..s }),
        Setting::EnablePush => if value == 0 {
            Ok(Settings { enable_push: false, ..s })
        } else if value == 1 {
            Ok(Settings { enable_push: true, ..s })
        } else {
            Err(SettingsError::InvalidEnablePushValue { actual: value })
        },
        Setting::MaxConcurrentStreams => Ok(Settings { max_concurrent_streams: Some(value), ..s }),
        Setting::InitialWindowSize => if value > MAX_INITIAL_WINDOW_SIZE {
            Err(SettingsError::InitialWindowSizeTooLarge { actual: value })
        } else {
            Ok(Settings { initial_window_size: value, ..s })
        },
        Setting::MaxFrameSize => if value < MIN_MAX_FRAME_SIZE || value > MAX_MAX_FRAME_SIZE {
            Err(SettingsError::SettingsMaxFrameSizeInvalid { actual: value })
        } else {
            Ok(Settings { max_frame_size: value, ..s })
        },
        Setting::MaxHeaderListSize => Ok(Settings { max_header_list_size: value, ..s }),
    }
}

/// The known settings that a SETTINGS payload holds, in order: each 6-byte
/// entry is a 16-bit identifier and a 32-bit value; unknown identifiers are skipped.
pub open spec fn settings_entries(buf: Seq<u8>) -> Seq<(Setting, u32)>
    decreases buf.len(),
{
    if buf.len() < 6 {
        Seq::empty()
    } else {
        let rest = settings_entries(buf.subrange(6, buf.len() as int));
        match setting_of_id(be_value(buf.subrange(0, 2)) as u16) {
            Some(id) => seq![(id, be_value(buf.subrange(2, 6)) as u32)] + rest,
            None => rest,
        }
    }
}

/// The settings after applying the entries one after the other; the first
/// refused entry's error otherwise.
pub open spec fn settings_apply_all(s: Settings, entries: Seq<(Setting, u32)>) -> Result<
    Settings,
    SettingsError,
>
    decreases entries.len(),
{
    if entries.len() == 0 {
        Ok(s)
    } else {
        match settings_apply(s, entries[0].0, entries[0].1) {
            Ok(s2) => settings_apply_all(s2, entries.drop_first()),
            Err(e) => Err(e),
        }
    }
}

/// The settings that hold before any SETTINGS frame.
pub open spec fn settings_default() -> Settings {
    Settings {
        header_table_size: 4096,
        enable_push: false,
        max_concurrent_streams: Some(100),
        initial_window_size: 65535,
        max_frame_size: 16384,
        max_header_list_size: 0,
    }
}

/// Settings whose values a peer is allowed to announce.
pub open spec fn settings_valid(s: Settings) -> bool {
    &&& s.initial_window_size <= MAX_INITIAL_WINDOW_SIZE
    &&& MIN_MAX_FRAME_SIZE <= s.max_frame_size <= MAX_MAX_FRAME_SIZE
}

impl Settings {
    /// cf. https://httpwg.org/specs/rfc9113.html#SettingValues
    pub fn default_settings() -> (r: Settings)
        ensures
            r == settings_default(),
    {
        Settings {
            header_table_size: 4096,
            enable_push: false,
            max_concurrent_streams: Some(100),
            initial_window_size: 65535,
            max_frame_size: 16384,
            max_header_list_size: 0,
        }
    }

    /// Apply a setting to the current settings, returning an error if the
    /// setting is invalid (the settings are then unchanged).
    pub fn apply(&mut self, code: Setting, value: u32) -> (r: Result<(), SettingsError>)
        ensures
            match settings_apply(*old(self), code, value) {
                Ok(s) => r == Ok::<(), SettingsError>(()) && *final(self) == s,
                Err(e) => r == Err::<(), SettingsError>(e) && *final(self) == *old(self),
            },
    {
        match code {
            Setting::HeaderTableSize => {
                self.header_table_size = value;
            },
            Setting::EnablePush => {
                if value == 0 {
                    self.enable_push = false;
                } else if value == 1 {
                    self.enable_push = true;
                } else {
                    return Err(SettingsError::InvalidEnablePushValue { actual: value });
                }
            },
            Setting::MaxConcurrentStreams => {
                self.max_concurrent_streams = Some(value);
            },
            Setting::InitialWindowSize => {
                if value > MAX_INITIAL_WINDOW_SIZE {
                    return Err(SettingsError::InitialWindowSizeTooLarge { actual: value });
                }
                self.initial_window_size = value;
            },
            Setting::MaxFrameSize => {
                if value < MIN_MAX_FRAME_SIZE || value > MAX_MAX_FRAME_SIZE {
                    return Err(SettingsError::SettingsMaxFrameSizeInvalid { actual: value });
                }
                self.max_frame_size = value;
            },
            Setting::MaxHeaderListSize => {
                self.max_header_list_size = value;
            },
        }
        Ok(())
    }

    /// Parse a series of settings from a buffer, and returns each known setting
    /// found, in order. Unknown settings are ignored.
    ///
    /// The buffer's length must be a multiple of 6 bytes.
    pub fn parse(buf: &[u8]) -> (r: Vec<(Setting, u32)>)
        requires
            buf@.len() % 6 == 0,
        ensures
            r@ == settings_entries(buf@),
    {
        let n = buf.len();
        let mut out: Vec<(Setting, u32)> = Vec::new();
        let mut pos: usize = 0;
        assert(buf@.subrange(0, n as int) =~= buf@);
        while pos < n
            invariant
                n == buf@.len(),
                n % 6 == 0,
                pos % 6 == 0,
                pos <= n,
                settings_entries(buf@) == out@ + settings_entries(
                    buf@.subrange(pos as int, n as int),
                ),
            decreases n - pos,
        {
            let ghost rest = buf@.subrange(pos as int, n as int);
            assert(rest.subrange(0, 2) =~= buf@.subrange(pos as int, pos + 2));
            assert(rest.subrange(2, 6) =~= buf@.subrange(pos + 2, pos + 6));
            assert(rest.subrange(6, rest.len() as int) =~= buf@.subrange(pos + 6, n as int));
            let id = read_be_u16(buf, pos);
            let value = read_be_u32(buf, pos + 2);
            match Setting::from_repr(id) {
                None => {},
                Some(s) => {
                    out.push((s, value));
                },
            }
            proof {
                assert(out@ + settings_entries(buf@.subrange(pos + 6, n as int)) =~= old_out_plus(
                    out@,
                    settings_entries(buf@.subrange(pos + 6, n as int)),
                ));
            }
            pos = pos + 6;
        }
        assert(buf@.subrange(n as int, n as int) =~= Seq::<u8>::empty());
        out
    }

    /// The settings after applying every known setting of a SETTINGS payload
    /// in order, stopping at the first invalid one.
    pub fn apply_payload(&self, buf: &[u8]) -> (r: Result<Settings, SettingsError>)
        requires
            buf@.len() % 6 == 0,
        ensures
            r == settings_apply_all(*self, settings_entries(buf@)),
    {
        let entries = Settings::parse(buf);
        let mut s = *self;
        let mut k: usize = 0;
        assert(entries@.subrange(0, entries@.len() as int) =~= entries@);
        while k < entries.len()
            invariant
                entries@ == settings_entries(buf@),
                k <= entries@.len(),
                settings_apply_all(*self, entries@) == settings_apply_all(
                    s,
                    entries@.subrange(k as int, entries@.len() as int),
                ),
            decreases entries@.len() - k,
        {
            let ghost tail = entries@.subrange(k as int, entries@.len() as int);
            assert(tail.drop_first() =~= entries@.subrange(k + 1, entries@.len() as int));
            assert(tail[0] == entries@[k as int]);
            let (code, value) = entries[k];
            let ghost s_before = s;
            match s.apply(code, value) {
                Ok(()) => {},
                Err(e) => {
                    assert(settings_apply(s_before, code, value) == Err::<Settings, SettingsError>(e));
                    assert(settings_apply_all(s_before, tail) == Err::<Settings, SettingsError>(e));
                    return Err(e);
                },
            }
            k = k + 1;
        }
        assert(entries@.subrange(k as int, entries@.len() as int) =~= Seq::<(Setting, u32)>::empty());
        Ok(s)
    }
}

spec fn old_out_plus(a: Seq<(Setting, u32)>, b: Seq<(Setting, u32)>) -> Seq<(Setting, u32)> {
    a + b
}

/// Settings that start valid stay valid whatever a SETTINGS payload holds.
pub proof fn law_settings_apply_keeps_valid(s: Settings, entries: Seq<(Setting, u32)>)
    requires
        settings_valid(s),
    ensures
        settings_apply_all(s, entries) matches Ok(s2) ==> settings_valid(s2),
    decreases entries.len(),
{
    if entries.len() > 0 {
        match settings_apply(s, entries[0].0, entries[0].1) {
            Ok(s2) => law_settings_apply_keeps_valid(s2, entries.drop_first()),
            Err(_) => {},
        }
    }
}

/// A refused setting leaves the settings as they were, and the same setting
/// applied twice gives the same settings as applying it once.
pub proof fn law_settings_apply_idempotent(s: Settings, code: Setting, value: u32)
    ensures
        settings_apply(s, code, value) matches Ok(s2) ==> settings_apply(s2, code, value) == Ok::<
            Settings,
            SettingsError,
        >(s2),
{
}

/// Applying a setting installs its value in the one field it names (`ENABLE_PUSH`
/// as a boolean, `MAX_CONCURRENT_STREAMS` as a limit) and leaves every other
/// field as it was. The header table size, the stream limit and the header
/// list size are accepted whatever their value; the others only in their
/// allowed ranges.
pub proof fn law_settings_apply_installs(s: Settings, code: Setting, value: u32)
    ensures
        code == Setting::HeaderTableSize ==> settings_apply(s, code, value) is Ok,
        code == Setting::MaxConcurrentStreams ==> settings_apply(s, code, value) is Ok,
        code == Setting::MaxHeaderListSize ==> settings_apply(s, code, value) is Ok,
        code == Setting::EnablePush ==> (settings_apply(s, code, value) is Ok <==> value <= 1),
        code == Setting::InitialWindowSize ==> (settings_apply(s, code, value) is Ok <==> value
            <= 0x7fff_ffff),
        code == Setting::MaxFrameSize ==> (settings_apply(s, code, value) is Ok <==> 0x4000
            <= value <= 0xff_ffff),
        settings_apply(s, code, value) matches Ok(s2) ==> {
            &&& s2.header_table_size == if code == Setting::HeaderTableSize {
                value
            } else {
                s.header_table_size
            }
            &&& s2.enable_push == if code == Setting::EnablePush {
                value == 1
            } else {
                s.enable_push
            }
            &&& s2.max_concurrent_streams == if code == Setting::MaxConcurrentStreams {
                Some(value)
            } else {
                s.max_concurrent_streams
            }
            &&& s2.initial_window_size == if code == Setting::InitialWindowSize {
                value
            } else {
                s.initial_window_size
            }
            &&& s2.max_frame_size == if code == Setting::MaxFrameSize {
                value
            } else {
                s.max_frame_size
            }
            &&& s2.max_header_list_size == if code == Setting::MaxHeaderListSize {
                value
            } else {
                s.max_header_list_size
            }
        },
{
}


// ---------------------------------------------------------------------------
// Frame payloads
// ---------------------------------------------------------------------------
// cf. https://httpwg.org/specs/rfc9113.html#HEADERS
#[derive(Debug, Clone, Copy, PartialEq, Eq, Structural)]
pub struct PrioritySpec {
    pub exclusive: bool,
    pub stream_dependency: StreamId,
    // 0-255 => 1-256
    pub weight: u8,
}

pub open spec fn priority_spec_of_bytes(s: Seq<u8>) -> PrioritySpec {
    PrioritySpec {
        exclusive: be_value(s.subrange(0, 4)) / 0x8000_0000 != 0,
        stream_dependency: StreamId((be_value(s.subrange(0, 4)) % 0x8000_0000) as u32),
        weight: s[4],
    }
}

pub open spec fn priority_spec_bytes(p: PrioritySpec) -> Seq<u8> {
    bit_and_u31_bytes(if p.exclusive { 1u8 } else { 0u8 }, p.stream_dependency.0).push(p.weight)
}

impl PrioritySpec {
    /// Parses the 5-byte priority block.
    pub fn parse(i: &[u8]) -> (r: IResult<PrioritySpec>)
        ensures
            i@.len() >= 5 ==> r == Ok::<_, ParseError>((5usize, priority_spec_of_bytes(i@))),
            i@.len() < 4 ==> r == Err::<(usize, PrioritySpec), _>(
                ParseError::Incomplete((4 - i@.len()) as usize),
            ),
            i@.len() == 4 ==> r == Err::<(usize, PrioritySpec), _>(ParseError::Incomplete(1)),
    {
        let (_, (exclusive, stream_dependency)) = match parse_bit_and_u31(i) {
            Ok(t) => t,
            Err(e) => {
                return Err(e);
            },
        };
        if i.len() < 5 {
            return Err(ParseError::Incomplete(1));
        }
        proof {
            lemma_pow256_values();
            lemma_be_value_bound_and_encode(i@.subrange(0, 4));
        }
        Ok(
            (
                5,
                PrioritySpec {
                    exclusive: exclusive != 0,
                    stream_dependency: StreamId(stream_dependency),
                    weight: i[4],
                },
            ),
        )
    }

    /// Appends the 5-byte encoding of this priority block.
    pub fn write_into(&self, out: &mut Vec<u8>)
        requires
            self.stream_dependency.0 < 0x8000_0000,
        ensures
            final(out)@ == old(out)@ + priority_spec_bytes(*self),
    {
        let ghost start = out@;
        let bit: u8 = if self.exclusive {
            1
        } else {
            0
        };
        let packed = pack_reserved_and_stream_id(bit, self.stream_dependency);
        out.push(packed[0]);
        out.push(packed[1]);
        out.push(packed[2]);
        out.push(packed[3]);
        out.push(self.weight);
        proof {
            law_bit_and_u31_roundtrip(bit, self.stream_dependency.0);
        }
        assert(out@ =~= start + priority_spec_bytes(*self));
    }
}

/// Reading a written priority block gives it back.
pub proof fn law_priority_spec_roundtrip(p: PrioritySpec)
    requires
        p.stream_dependency.0 < 0x8000_0000,
    ensures
        priority_spec_bytes(p).len() == 5,
        priority_spec_of_bytes(priority_spec_bytes(p)) == p,
{
    let bit = if p.exclusive { 1u8 } else { 0u8 };
    law_bit_and_u31_roundtrip(bit, p.stream_dependency.0);
    assert(priority_spec_bytes(p).subrange(0, 4) =~= bit_and_u31_bytes(bit, p.stream_dependency.0));
}

/// Payload for a RST_STREAM frame
#[derive(Debug, Clone, Copy, PartialEq, Eq, Structural)]
pub struct RstStream {
    pub error_code: ErrorCode,
}

impl RstStream {
    pub fn parse(i: &[u8]) -> (r: IResult<RstStream>)
        ensures
            i@.len() >= 4 ==> r == Ok::<_, ParseError>(
                (4usize, RstStream { error_code: ErrorCode(be_value(i@.subrange(0, 4)) as u32) }),
            ),
            i@.len() < 4 ==> r == Err::<(usize, RstStream), _>(
                ParseError::Incomplete((4 - i@.len()) as usize),
            ),
    {
        if i.len() < 4 {
            return Err(ParseError::Incomplete(4 - i.len()));
        }
        let code = read_be_u32(i, 0);
        Ok((4, RstStream { error_code: ErrorCode(code) }))
    }

    /// Appends the 4-byte encoding of this payload.
    pub fn write_into(&self, out: &mut Vec<u8>)
        ensures
            final(out)@ == old(out)@ + be_bytes(self.error_code.0 as nat, 4),
    {
        push_be_u32(out, self.error_code.0);
    }
}

/// Payload for a WINDOW_UPDATE frame
#[derive(Debug, Clone, Copy, PartialEq, Eq, Structural)]
pub struct WindowUpdate {
    pub reserved: u8,
    pub increment: u32,
}

impl WindowUpdate {
    pub fn parse(i: &[u8]) -> (r: IResult<WindowUpdate>)
        ensures
            i@.len() >= 4 ==> r == Ok::<_, ParseError>(
                (
                    4usize,
                    WindowUpdate {
                        reserved: (be_value(i@.subrange(0, 4)) / 0x8000_0000) as u8,
                        increment: (be_value(i@.subrange(0, 4)) % 0x8000_0000) as u32,
                    },
                ),
            ),
            i@.len() < 4 ==> r == Err::<(usize, WindowUpdate), _>(
                ParseError::Incomplete((4 - i@.len()) as usize),
            ),
    {
        match parse_bit_and_u31(i) {
            Ok((n, (reserved, increment))) => Ok((n, WindowUpdate { reserved, increment })),
            Err(e) => Err(e),
        }
    }

    /// Appends the 4-byte encoding of this payload.
    pub fn write_into(&self, out: &mut Vec<u8>)
        requires
            self.reserved <= 1,
            self.increment < 0x8000_0000,
        ensures
            final(out)@ == old(out)@ + bit_and_u31_bytes(self.reserved, self.increment),
    {
        let ghost start = out@;
        let packed = pack_bit_and_u31(self.reserved, self.increment);
        out.push(packed[0]);
        out.push(packed[1]);
        out.push(packed[2]);
        out.push(packed[3]);
        assert(out@ =~= start + bit_and_u31_bytes(self.reserved, self.increment));
    }
}

/// Payload for a GOAWAY frame
#[derive(Debug)]
pub struct GoAway {
    pub last_stream_id: StreamId,
    pub error_code: ErrorCode,
    pub additional_debug_data: Vec<u8>,
}

pub open spec fn goaway_bytes(last_stream_id: u32, error_code: u32, data: Seq<u8>) -> Seq<u8> {
    be_bytes(last_stream_id as nat, 4) + be_bytes(error_code as nat, 4) + data
}

impl GoAway {
    /// Parses a GOAWAY payload; everything after the first 8 bytes is debug data.
    pub fn parse(i: &[u8]) -> (r: IResult<GoAway>)
        ensures
            i@.len() >= 8 ==> (r matches Ok((n, g)) && n == i@.len() && g.last_stream_id == StreamId(
                be_value(i@.subrange(0, 4)) as u32,
            ) && g.error_code == ErrorCode(be_value(i@.subrange(4, 8)) as u32)
                && g.additional_debug_data@ == i@.subrange(8, i@.len() as int)),
            i@.len() < 4 ==> r == Err::<(usize, GoAway), _>(
                ParseError::Incomplete((4 - i@.len()) as usize),
            ),
            4 <= i@.len() < 8 ==> r == Err::<(usize, GoAway), _>(
                ParseError::Incomplete((8 - i@.len()) as usize),
            ),
    {
        if i.len() < 4 {
            return Err(ParseError::Incomplete(4 - i.len()));
        }
        if i.len() < 8 {
            return Err(ParseError::Incomplete(8 - i.len()));
        }
        let last = read_be_u32(i, 0);
        let code = read_be_u32(i, 4);
        let mut data: Vec<u8> = Vec::new();
        let mut k: usize = 8;
        while k < i.len()
            invariant
                8 <= k <= i@.len(),
                data@ == i@.subrange(8, k as int),
            decreases i@.len() - k,
        {
            data.push(i[k]);
            assert(data@ =~= i@.subrange(8, k + 1));
            k = k + 1;
        }
        Ok(
            (
                i.len(),
                GoAway {
                    last_stream_id: StreamId(last),
                    error_code: ErrorCode(code),
                    additional_debug_data: data,
                },
            ),
        )
    }

    /// Appends the encoding of this payload.
    pub fn write_into(&self, out: &mut Vec<u8>)
        ensures
            final(out)@ == old(out)@ + goaway_bytes(
                self.last_stream_id.0,
                self.error_code.0,
                self.additional_debug_data@,
            ),
    {
        let ghost start = out@;
        push_be_u32(out, self.last_stream_id.0);
        push_be_u32(out, self.error_code.0);
        let ghost mid = out@;
        let mut k: usize = 0;
        while k < self.additional_debug_data.len()
            invariant
                k <= self.additional_debug_data@.len(),
                out@ == mid + self.additional_debug_data@.subrange(0, k as int),
            decreases self.additional_debug_data@.len() - k,
        {
            out.push(self.additional_debug_data[k]);
            assert(out@ =~= mid + self.additional_debug_data@.subrange(0, k + 1));
            k = k + 1;
        }
        assert(self.additional_debug_data@.subrange(0, k as int) =~= self.additional_debug_data@);
        assert(out@ =~= start + goaway_bytes(
            self.last_stream_id.0,
            self.error_code.0,
            self.additional_debug_data@,
        ));
    }
}

/// The 6-byte encodings of the given settings, one after the other.
pub open spec fn setting_pairs_bytes(pairs: Seq<(Setting, u32)>) -> Seq<u8>
    decreases pairs.len(),
{
    if pairs.len() == 0 {
        Seq::empty()
    } else {
        be_bytes(setting_id(pairs[0].0) as nat, 2) + be_bytes(pairs[0].1 as nat, 4)
            + setting_pairs_bytes(pairs.drop_first())
    }
}

/// A list of settings to send in a SETTINGS frame.
pub struct SettingPairs<'a>(pub &'a [(Setting, u32)]);

impl<'a> SettingPairs<'a> {
    /// Appends the encoding of these settings.
    pub fn write_into(&self, out: &mut Vec<u8>)
        ensures
            final(out)@ == old(out)@ + setting_pairs_bytes(self.0@),
    {
        let ghost start = out@;
        let mut k: usize = 0;
        proof {
            lemma_setting_pairs_bytes_prefix(self.0@, 0);
        }
        while k < self.0.len()
            invariant
                k <= self.0@.len(),
                out@ == start + setting_pairs_bytes(self.0@.subrange(0, k as int)),
            decreases self.0@.len() - k,
        {
            let (id, value) = self.0[k];
            push_be_u16(out, id.repr());
            push_be_u32(out, value);
            proof {
                lemma_setting_pairs_bytes_prefix(self.0@, k as int);
            }
            assert(out@ =~= start + setting_pairs_bytes(self.0@.subrange(0, k + 1)));
            k = k + 1;
        }
        assert(self.0@.subrange(0, k as int) =~= self.0@);
    }
}

proof fn lemma_setting_pairs_bytes_prefix(pairs: Seq<(Setting, u32)>, k: int)
    requires
        0 <= k <= pairs.len(),
    ensures
        k == 0 ==> setting_pairs_bytes(pairs.subrange(0, 0)) == Seq::<u8>::empty(),
        k < pairs.len() ==> setting_pairs_bytes(pairs.subrange(0, k + 1)) == setting_pairs_bytes(
            pairs.subrange(0, k),
        ) + be_bytes(setting_id(pairs[k].0) as nat, 2) + be_bytes(pairs[k].1 as nat, 4),
    decreases k,
{
    if k == 0 {
        assert(pairs.subrange(0, 0) =~= Seq::<(Setting, u32)>::empty());
        if k < pairs.len() {
            let one = pairs.subrange(0, 1);
            assert(one.drop_first() =~= Seq::<(Setting, u32)>::empty());
            assert(setting_pairs_bytes(one) =~= be_bytes(setting_id(pairs[0].0) as nat, 2)
                + be_bytes(pairs[0].1 as nat, 4));
        }
    } else if k < pairs.len() {
        let tail = pairs.drop_first();
        lemma_setting_pairs_bytes_prefix(tail, k - 1);
        assert(pairs.subrange(0, k + 1).drop_first() =~= tail.subrange(0, k));
        assert(pairs.subrange(0, k).drop_first() =~= tail.subrange(0, k - 1));
        assert(tail[k - 1] == pairs[k]);
        assert(setting_pairs_bytes(pairs.subrange(0, k + 1)) =~= setting_pairs_bytes(
            pairs.subrange(0, k),
        ) + be_bytes(setting_id(pairs[k].0) as nat, 2) + be_bytes(pairs[k].1 as nat, 4));
    }
}

/// Parsing written settings gives the same settings back, in order.
pub proof fn law_setting_pairs_roundtrip(pairs: Seq<(Setting, u32)>)
    ensures
        setting_pairs_bytes(pairs).len() == 6 * pairs.len(),
        settings_entries(setting_pairs_bytes(pairs)) == pairs,
    decreases pairs.len(),
{
    if pairs.len() > 0 {
        let tail = pairs.drop_first();
        law_setting_pairs_roundtrip(tail);
        lemma_pow256_values();
        lemma_be_roundtrip(setting_id(pairs[0].0) as nat, 2);
        lemma_be_roundtrip(pairs[0].1 as nat, 4);
        let b = setting_pairs_bytes(pairs);
        let t = setting_pairs_bytes(tail);
        assert(b.subrange(0, 2) =~= be_bytes(setting_id(pairs[0].0) as nat, 2));
        assert(b.subrange(2, 6) =~= be_bytes(pairs[0].1 as nat, 4));
        assert(b.subrange(6, b.len() as int) =~= t);
        assert(settings_entries(b) =~= seq![pairs[0]] + tail);
    } else {
        assert(settings_entries(setting_pairs_bytes(pairs)) =~= pairs);
    }
}

} // verus!
