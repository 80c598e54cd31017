//! The HTTP/2 server connection: stream states, flow-control windows and
//! settings, and what the server decides for every frame it reads.
//!
//! The functions here take the connection state and one event (a frame, a
//! response event, a written frame) and return the next state and the
//! actions to perform; reading, writing and header compression happen
//! around them.
use vstd::prelude::*;

use std::collections::VecDeque;
use vstd::hash_map::HashMapWithView;

use crate::frame::{
    has_flag, settings_apply_all, settings_entries, settings_valid, BitFlags, Frame, FrameType,
    KnownErrorCode, PrioritySpec, Settings, SettingsError, StreamId, MAX_INITIAL_WINDOW_SIZE,
};

verus! {

broadcast use vstd::std_specs::hash::group_hash_axioms;

/// The maximum flow-control window size, 2^31-1: a window beyond it is a
/// FLOW_CONTROL_ERROR.
pub const MAX_WINDOW_SIZE: i64 = 0x7fff_ffff;

/// HTTP/2 server configuration
#[derive(Debug, Clone, Copy, PartialEq, Eq, Structural)]
pub struct ServerConf {
    pub max_streams: u32,
}

impl ServerConf {
    /// 32 concurrent streams.
    pub fn default_conf() -> (r: ServerConf)
        ensures
            r.max_streams == 32,
    {
        ServerConf { max_streams: 32 }
    }
}

/// Errors that end the whole connection (with a GOAWAY).
#[derive(Debug, Clone, PartialEq, Eq)]
#[allow(inconsistent_fields)]
pub enum H2ConnectionError {
    /// frame too large: the frame exceeds the max frame size
    FrameTooLarge { frame_type: FrameType, frame_size: u32, max_frame_size: u32 },
    /// remote hung up while reading the payload of a frame
    IncompleteFrame { frame_type: FrameType, frame_size: u32 },
    /// headers frame had invalid priority: stream depends on itself
    HeadersInvalidPriority { stream_id: StreamId },
    /// client tried to initiate an even-numbered stream
    ClientSidShouldBeOdd,
    /// client stream IDs should be numerically increasing
    ClientSidShouldBeNumericallyIncreasing { stream_id: StreamId, last_stream_id: StreamId },
    /// received a frame with Padded flag but empty payload
    PaddedFrameEmpty { frame_type: FrameType },
    /// received a frame with Padded flag but payload was shorter than padding
    PaddedFrameTooShort { frame_type: FrameType, padding_length: usize, frame_size: u32 },
    /// on a stream, expected continuation frame, but got something else (or nothing)
    ExpectedContinuationFrame { stream_id: StreamId, frame_type: Option<FrameType> },
    /// expected continuation for one stream, but got continuation for another
    ExpectedContinuationForStream { stream_id: StreamId, continuation_stream_id: StreamId },
    /// received unexpected continuation frame
    UnexpectedContinuationFrame { stream_id: StreamId },
    /// compression error
    CompressionError(String),
    /// client sent a push promise frame, clients aren't allowed to do that
    ClientSentPushPromise,
    /// received window update for unknown/closed stream
    WindowUpdateForUnknownOrClosedStream { stream_id: StreamId },
    /// other error
    Internal(String),
    /// error reading/parsing H2 frame
    ReadError(String),
    /// error writing H2 frame
    WriteError(String),
    /// received rst frame for unknown stream
    RstStreamForUnknownStream { stream_id: StreamId },
    /// received frame for closed stream
    StreamClosed { stream_id: StreamId },
    /// received ping frame frame with non-zero stream id
    PingFrameWithNonZeroStreamId { stream_id: StreamId },
    /// received ping frame with invalid length
    PingFrameInvalidLength { len: u32 },
    /// received settings ack frame with a payload
    SettingsAckWithPayload { len: u32 },
    /// received settings frame with non-zero stream id
    SettingsWithNonZeroStreamId { stream_id: StreamId },
    /// received goaway frame with non-zero stream id
    GoAwayWithNonZeroStreamId { stream_id: StreamId },
    /// zero increment in window update frame
    WindowUpdateZeroIncrement,
    /// received window update that made the window size overflow
    WindowUpdateOverflow,
    /// received window update frame with invalid length
    WindowUpdateInvalidLength { len: usize },
    /// received more data than the stream's window allows
    WindowUnderflow { stream_id: StreamId },
    /// a SETTINGS frame made a stream's window overflow
    StreamWindowSizeOverflowDueToSettings { stream_id: StreamId },
}

pub open spec fn connection_error_code(e: H2ConnectionError) -> KnownErrorCode {
    match e {
        H2ConnectionError::FrameTooLarge { .. } => KnownErrorCode::FrameSizeError,
        H2ConnectionError::PaddedFrameEmpty { .. } => KnownErrorCode::FrameSizeError,
        H2ConnectionError::PaddedFrameTooShort { .. } => KnownErrorCode::FrameSizeError,
        H2ConnectionError::PingFrameInvalidLength { .. } => KnownErrorCode::FrameSizeError,
        H2ConnectionError::SettingsAckWithPayload { .. } => KnownErrorCode::FrameSizeError,
        H2ConnectionError::WindowUpdateInvalidLength { .. } => KnownErrorCode::FrameSizeError,
        H2ConnectionError::WindowUpdateOverflow => KnownErrorCode::FlowControlError,
        H2ConnectionError::CompressionError(_) => KnownErrorCode::CompressionError,
        H2ConnectionError::StreamClosed { .. } => KnownErrorCode::StreamClosed,
        H2ConnectionError::Internal(_) => KnownErrorCode::InternalError,
        _ => KnownErrorCode::ProtocolError,
    }
}

impl H2ConnectionError {
    /// The error code a GOAWAY carries for this error.
    pub fn as_known_error_code(&self) -> (r: KnownErrorCode)
        ensures
            r == connection_error_code(*self),
    {
        match self {
            H2ConnectionError::FrameTooLarge { .. } => KnownErrorCode::FrameSizeError,
            H2ConnectionError::PaddedFrameEmpty { .. } => KnownErrorCode::FrameSizeError,
            H2ConnectionError::PaddedFrameTooShort { .. } => KnownErrorCode::FrameSizeError,
            H2ConnectionError::PingFrameInvalidLength { .. } => KnownErrorCode::FrameSizeError,
            H2ConnectionError::SettingsAckWithPayload { .. } => KnownErrorCode::FrameSizeError,
            H2ConnectionError::WindowUpdateInvalidLength { .. } => KnownErrorCode::FrameSizeError,
            H2ConnectionError::WindowUpdateOverflow => KnownErrorCode::FlowControlError,
            H2ConnectionError::CompressionError(_) => KnownErrorCode::CompressionError,
            H2ConnectionError::StreamClosed { .. } => KnownErrorCode::StreamClosed,
            H2ConnectionError::Internal(_) => KnownErrorCode::InternalError,
            _ => KnownErrorCode::ProtocolError,
        }
    }
}

/// Errors that end one stream (with a RST_STREAM).
#[derive(Debug, Clone, Copy, PartialEq, Eq, Structural)]
pub enum H2StreamError {
    /// received more bytes in data frames than content-length announced
    DataLengthDoesNotMatchContentLength { data_length: u64, content_length: u64 },
    /// refused stream (would exceed max concurrent streams)
    RefusedStream,
    /// trailers must have EndStream flag set
    TrailersNotEndStream,
    /// received RST_STREAM frame
    ReceivedRstStream,
    /// received PRIORITY frame with invalid size
    InvalidPriorityFrameSize { frame_size: u32 },
    /// stream closed
    StreamClosed,
    /// received RST_STREAM frame with invalid size
    InvalidRstStreamFrameSize { frame_size: u32 },
    /// received WINDOW_UPDATE that made the window size overflow
    WindowUpdateOverflow,
}

pub open spec fn stream_error_code(e: H2StreamError) -> KnownErrorCode {
    match e {
        H2StreamError::StreamClosed => KnownErrorCode::StreamClosed,
        H2StreamError::RefusedStream => KnownErrorCode::RefusedStream,
        H2StreamError::InvalidPriorityFrameSize { .. } => KnownErrorCode::FrameSizeError,
        H2StreamError::InvalidRstStreamFrameSize { .. } => KnownErrorCode::FrameSizeError,
        H2StreamError::WindowUpdateOverflow => KnownErrorCode::FlowControlError,
        _ => KnownErrorCode::ProtocolError,
    }
}

impl H2StreamError {
    /// The error code a RST_STREAM carries for this error.
    pub fn as_known_error_code(&self) -> (r: KnownErrorCode)
        ensures
            r == stream_error_code(*self),
    {
        match self {
            H2StreamError::StreamClosed => KnownErrorCode::StreamClosed,
            H2StreamError::RefusedStream => KnownErrorCode::RefusedStream,
            H2StreamError::InvalidPriorityFrameSize { .. } => KnownErrorCode::FrameSizeError,
            H2StreamError::InvalidRstStreamFrameSize { .. } => KnownErrorCode::FrameSizeError,
            H2StreamError::WindowUpdateOverflow => KnownErrorCode::FlowControlError,
            _ => KnownErrorCode::ProtocolError,
        }
    }
}

/// The receiving side of a stream: how much the peer may still send.
#[derive(Debug, Clone, Copy, PartialEq, Eq, Structural)]
pub struct StreamIncoming {
    pub capacity: i64,
}

/// Where the response headers of a stream are.
#[derive(Debug)]
pub enum HeadersOutgoing {
    /// the handler has not produced headers yet
    WaitingForHeaders,
    /// encoded headers, none of it written yet
    WroteNone(Vec<u8>),
    /// the rest of the encoded headers, after a first frame
    WroteSome(Vec<u8>),
    /// every header byte was written
    WroteAll,
}

/// Where the response body of a stream is.
#[derive(Debug)]
pub enum BodyOutgoing {
    /// body chunks to write; more may come
    StillReceiving(VecDeque<Vec<u8>>),
    /// the last body chunks to write
    DoneReceiving(VecDeque<Vec<u8>>),
    /// the body was written, with END_STREAM
    DoneSending,
}

/// The sending side of a stream.
#[derive(Debug)]
pub struct StreamOutgoing {
    pub headers: HeadersOutgoing,
    pub body: BodyOutgoing,
    /// window size of the stream, ie. how many bytes we can send to the
    /// receiver before waiting.
    pub capacity: i64,
}

/// cf. RFC 9113, 5.1 Stream States. A closed stream has no entry.
#[derive(Debug)]
pub enum StreamState {
    /// we have received full HEADERS
    Open { incoming: StreamIncoming, outgoing: StreamOutgoing },
    /// the peer has sent END_STREAM/RST_STREAM (but we might still send data to the peer)
    HalfClosedRemote { outgoing: StreamOutgoing },
    /// we have sent END_STREAM/RST_STREAM (but we might still receive data from the peer)
    HalfClosedLocal { incoming: StreamIncoming },
}

impl StreamState {
    /// The receiving side, when the peer may still send.
    pub open spec fn incoming_spec(&self) -> Option<StreamIncoming> {
        match self {
            StreamState::Open { incoming, .. } => Some(*incoming),
            StreamState::HalfClosedLocal { incoming } => Some(*incoming),
            _ => None,
        }
    }

    /// The capacity of the sending side, when we may still send.
    pub open spec fn outgoing_capacity_spec(&self) -> Option<i64> {
        match self {
            StreamState::Open { outgoing, .. } => Some(outgoing.capacity),
            StreamState::HalfClosedRemote { outgoing } => Some(outgoing.capacity),
            _ => None,
        }
    }

    /// The same state with the sending side's capacity replaced.
    pub open spec fn with_outgoing_capacity(self, cap: i64) -> StreamState {
        match self {
            StreamState::Open { incoming, outgoing } => StreamState::Open {
                incoming,
                outgoing: StreamOutgoing { capacity: cap, ..outgoing },
            },
            StreamState::HalfClosedRemote { outgoing } => StreamState::HalfClosedRemote {
                outgoing: StreamOutgoing { capacity: cap, ..outgoing },
            },
            s => s,
        }
    }

    /// Get the receiving side's capacity if the state is `Open` or `HalfClosedLocal`.
    pub fn incoming_capacity(&self) -> (r: Option<i64>)
        ensures
            r == match self.incoming_spec() {
                Some(i) => Some(i.capacity),
                None => None,
            },
    {
        match self {
            StreamState::Open { incoming, .. } => Some(incoming.capacity),
            StreamState::HalfClosedLocal { incoming } => Some(incoming.capacity),
            _ => None,
        }
    }

    /// The same state with the sending side's capacity replaced (unchanged
    /// when there is no sending side).
    pub fn set_outgoing_capacity(self, cap: i64) -> (r: StreamState)
        ensures
            r == self.with_outgoing_capacity(cap),
    {
        match self {
            StreamState::Open { incoming, outgoing } => StreamState::Open {
                incoming,
                outgoing: StreamOutgoing { capacity: cap, ..outgoing },
            },
            StreamState::HalfClosedRemote { outgoing } => StreamState::HalfClosedRemote {
                outgoing: StreamOutgoing { capacity: cap, ..outgoing },
            },
            s => s,
        }
    }

    /// Get the sending side's capacity if the state is `Open` or `HalfClosedRemote`.
    pub fn outgoing_capacity(&self) -> (r: Option<i64>)
        ensures
            r == self.outgoing_capacity_spec(),
    {
        match self {
            StreamState::Open { outgoing, .. } => Some(outgoing.capacity),
            StreamState::HalfClosedRemote { outgoing } => Some(outgoing.capacity),
            _ => None,
        }
    }
}


/// Whether a header block opens a stream or ends one.
#[derive(Debug, Clone, Copy, PartialEq, Eq, Structural)]
pub enum HeadersOrTrailers {
    Headers,
    Trailers,
}

/// What to do with the header block that follows.
#[derive(Debug, Clone, Copy, PartialEq, Eq, Structural)]
pub enum ReadHeadersMode {
    /// we're accepting the stream or processing trailers, we want to
    /// process the headers we read.
    Process,
    /// we're refusing the stream, we want to skip over the headers we read.
    Skip,
}

/// What the connection has to do after a frame was processed.
#[derive(Debug, Clone, Copy, PartialEq, Eq, Structural)]
pub enum H2Action {
    /// Write a RST_STREAM frame for the stream, with the error's code.
    SendRst { stream_id: StreamId, error: H2StreamError },
    /// Hand the frame's payload to the stream's request body; when
    /// `end_stream`, the body ends after it.
    DeliverData { stream_id: StreamId, end_stream: bool },
    /// Tell the stream's request body that the peer reset the stream.
    DeliverReset { stream_id: StreamId },
    /// Read a header block: its first fragment is the payload from
    /// `fragment_start` on, and CONTINUATION frames follow unless `end_headers`.
    ReadHeaders {
        stream_id: StreamId,
        kind: HeadersOrTrailers,
        mode: ReadHeadersMode,
        end_stream: bool,
        end_headers: bool,
        fragment_start: usize,
    },
    /// Set the header compression table size of the encoder.
    SetEncoderMaxTableSize { size: u32 },
    /// Write a SETTINGS frame with the ACK flag.
    AckSettings,
    /// Write a PING frame with the ACK flag and the same payload.
    SendPong,
    /// There may be data to send now.
    NotifySendData,
}

/// The connection state, seen whole.
#[verifier::ext_equal]
pub struct ConnView {
    pub streams: Map<u32, StreamState>,
    pub last_stream_id: StreamId,
    pub self_settings: Settings,
    pub peer_settings: Settings,
    pub pending: Set<u32>,
    pub incoming_capacity: i64,
    pub outgoing_capacity: i64,
    pub goaway_recv: bool,
}

pub struct ConnState {
    pub streams: HashMapWithView<u32, StreamState>,
    pub stream_ids: Vec<u32>,
    pub last_stream_id: StreamId,
    pub self_settings: Settings,
    pub peer_settings: Settings,
    pub streams_with_pending_data: Vec<u32>,
    pub incoming_capacity: i64,
    pub outgoing_capacity: i64,
    /// Whether we've received a GOAWAY frame.
    pub goaway_recv: bool,
}

impl View for ConnState {
    type V = ConnView;

    open spec fn view(&self) -> ConnView {
        ConnView {
            streams: self.streams@,
            last_stream_id: self.last_stream_id,
            self_settings: self.self_settings,
            peer_settings: self.peer_settings,
            pending: self.streams_with_pending_data@.to_set(),
            incoming_capacity: self.incoming_capacity,
            outgoing_capacity: self.outgoing_capacity,
            goaway_recv: self.goaway_recv,
        }
    }
}

/// The windows a stream state keeps are within what this server tracks: a
/// receiving window between 0 and the maximum, and a sending window at most
/// the maximum and not more than 2^31 below the peer's initial window size.
pub open spec fn stream_windows_ok(st: StreamState, peer_iws: u32) -> bool {
    &&& (st.incoming_spec() matches Some(i) ==> 0 <= i.capacity <= MAX_WINDOW_SIZE)
    &&& (st.outgoing_capacity_spec() matches Some(c) ==> peer_iws - 0x8000_0000 <= c
        <= MAX_WINDOW_SIZE)
}

/// The whole-connection invariant.
pub open spec fn conn_view_wf(v: ConnView) -> bool {
    &&& settings_valid(v.self_settings)
    &&& settings_valid(v.peer_settings)
    &&& 0 <= v.outgoing_capacity <= MAX_WINDOW_SIZE
    &&& 0 <= v.incoming_capacity <= MAX_WINDOW_SIZE
    &&& forall|id: u32| #[trigger]
        v.streams.contains_key(id) ==> stream_windows_ok(
            v.streams[id],
            v.peer_settings.initial_window_size,
        )
    &&& forall|id: u32| #[trigger]
        v.pending.contains(id) ==> v.streams.contains_key(id)
            && v.streams[id].outgoing_capacity_spec() is Some
}

impl ConnState {
    pub open spec fn wf(&self) -> bool {
        &&& conn_view_wf(self@)
        &&& self.stream_ids@.no_duplicates()
        &&& self.streams_with_pending_data@.no_duplicates()
        &&& forall|id: u32| #[trigger]
            self.streams@.contains_key(id) <==> self.stream_ids@.contains(id)
        &&& self.stream_ids@.len() < usize::MAX
    }

    /// The state of a new connection: no streams, default settings on both
    /// sides (but at most `conf.max_streams` concurrent streams from the
    /// peer), and both connection windows at their initial size.
    pub fn new(conf: ServerConf) -> (r: ConnState)
        ensures
            r.wf(),
            r@.streams == Map::<u32, StreamState>::empty(),
            r@.pending == Set::<u32>::empty(),
            r@.last_stream_id == StreamId(0),
            r@.self_settings == (Settings {
                max_concurrent_streams: Some(conf.max_streams),
                ..crate::frame::settings_default()
            }),
            r@.peer_settings == crate::frame::settings_default(),
            r@.incoming_capacity == 65535,
            r@.outgoing_capacity == 65535,
            !r@.goaway_recv,
    {
        let mut self_settings = Settings::default_settings();
        self_settings.max_concurrent_streams = Some(conf.max_streams);
        let peer_settings = Settings::default_settings();
        let r = ConnState {
            streams: HashMapWithView::new(),
            stream_ids: Vec::new(),
            last_stream_id: StreamId(0),
            self_settings,
            peer_settings,
            streams_with_pending_data: Vec::new(),
            incoming_capacity: self_settings.initial_window_size as i64,
            outgoing_capacity: peer_settings.initial_window_size as i64,
            goaway_recv: false,
        };
        assert(r.streams_with_pending_data@.to_set() =~= Set::<u32>::empty()) by {
            assert(r.streams_with_pending_data@ =~= Seq::<u32>::empty());
        }
        r
    }

    /// Whether the stream has an entry (is not closed).
    pub fn has_stream(&self, id: StreamId) -> (r: bool)
        ensures
            r == self@.streams.contains_key(id.0),
    {
        self.streams.contains_key(&id.0)
    }

    /// How many streams are not closed.
    pub fn num_streams(&self) -> (r: usize)
        requires
            self.wf(),
        ensures
            r == self@.streams.dom().len(),
    {
        proof {
            lemma_ids_len(self);
        }
        self.stream_ids.len()
    }

    /// Removes a stream (it becomes closed); it has no pending data anymore.
    pub(crate) fn remove_stream(&mut self, id: u32) -> (r: Option<StreamState>)
        requires
            old(self).wf(),
        ensures
            final(self)@ == (ConnView {
                streams: old(self)@.streams.remove(id),
                pending: old(self)@.pending.remove(id),
                ..old(self)@
            }),
            r == if old(self)@.streams.contains_key(id) {
                Some(old(self)@.streams[id])
            } else {
                None
            },
            final(self).stream_ids@.no_duplicates(),
            final(self).streams_with_pending_data@.no_duplicates(),
            forall|k: u32| #[trigger]
                final(self).streams@.contains_key(k) <==> final(self).stream_ids@.contains(k),
            final(self).stream_ids@.len() < usize::MAX,
    {
        let r = self.streams.remove(&id);
        remove_from_vec(&mut self.stream_ids, id);
        remove_from_vec(&mut self.streams_with_pending_data, id);
        proof {
            assert(self.streams_with_pending_data@.to_set() =~= old(self)@.pending.remove(id));
            assert(self@ =~= (ConnView {
                streams: old(self)@.streams.remove(id),
                pending: old(self)@.pending.remove(id),
                ..old(self)@
            }));
        }
        r
    }

    /// Puts a stream state in place (the stream is open or half closed).
    pub(crate) fn insert_stream(&mut self, id: u32, st: StreamState)
        requires
            old(self).wf(),
            old(self)@.streams.contains_key(id) || old(self).stream_ids@.len() + 1 < usize::MAX,
        ensures
            final(self)@ == (ConnView { streams: old(self)@.streams.insert(id, st), ..old(self)@ }),
            final(self).stream_ids@.no_duplicates(),
            final(self).streams_with_pending_data@.no_duplicates(),
            forall|k: u32| #[trigger]
                final(self).streams@.contains_key(k) <==> final(self).stream_ids@.contains(k),
            final(self).stream_ids@.len() < usize::MAX,
    {
        let present = self.streams.contains_key(&id);
        self.streams.insert(id, st);
        if !present {
            self.stream_ids.push(id);
            proof {
                assert forall|a: int, b: int|
                    0 <= a < self.stream_ids@.len() && 0 <= b < self.stream_ids@.len() && a != b
                        implies self.stream_ids@[a] != self.stream_ids@[b] by {
                    if a == self.stream_ids@.len() - 1 {
                        assert(!old(self).stream_ids@.contains(id));
                        assert(old(self).stream_ids@[b] == self.stream_ids@[b]);
                    } else if b == self.stream_ids@.len() - 1 {
                        assert(!old(self).stream_ids@.contains(id));
                        assert(old(self).stream_ids@[a] == self.stream_ids@[a]);
                    }
                }
                assert forall|k: u32| #[trigger]
                    self.streams@.contains_key(k) <==> self.stream_ids@.contains(k) by {
                    if k != id && old(self).stream_ids@.contains(k) {
                        let j = choose|j: int|
                            0 <= j < old(self).stream_ids@.len() && old(self).stream_ids@[j] == k;
                        assert(self.stream_ids@[j] == k);
                    }
                    if self.stream_ids@.contains(k) && k != id {
                        let j = choose|j: int|
                            0 <= j < self.stream_ids@.len() && self.stream_ids@[j] == k;
                        assert(old(self).stream_ids@[j] == k);
                    }
                    if k == id {
                        assert(self.stream_ids@[self.stream_ids@.len() - 1] == id);
                    }
                }
            }
        }
    }

    /// The stream has no data pending anymore.
    pub(crate) fn remove_pending(&mut self, id: u32)
        requires
            old(self).streams_with_pending_data@.no_duplicates(),
        ensures
            final(self)@ == (ConnView { pending: old(self)@.pending.remove(id), ..old(self)@ }),
            final(self).streams_with_pending_data@.no_duplicates(),
            final(self).stream_ids == old(self).stream_ids,
            final(self).streams@ == old(self).streams@,
    {
        remove_from_vec(&mut self.streams_with_pending_data, id);
        proof {
            assert(self@ =~= (ConnView { pending: old(self)@.pending.remove(id), ..old(self)@ }));
        }
    }

    /// Marks a stream as having data to send.
    pub(crate) fn add_pending(&mut self, id: u32)
        requires
            old(self).streams_with_pending_data@.no_duplicates(),
        ensures
            final(self)@ == (ConnView { pending: old(self)@.pending.insert(id), ..old(self)@ }),
            final(self).streams_with_pending_data@.no_duplicates(),
            final(self).stream_ids == old(self).stream_ids,
            final(self).streams@ == old(self).streams@,
    {
        if !vec_contains(&self.streams_with_pending_data, id) {
            self.streams_with_pending_data.push(id);
            proof {
                let v = self.streams_with_pending_data@;
                assert forall|a: int, b: int| 0 <= a < v.len() && 0 <= b < v.len() && a != b implies v[a]
                    != v[b] by {
                    if a == v.len() - 1 {
                        assert(v[b] == old(self).streams_with_pending_data@[b]);
                    } else if b == v.len() - 1 {
                        assert(v[a] == old(self).streams_with_pending_data@[a]);
                    }
                }
            }
        }
        proof {
            let old_v = old(self).streams_with_pending_data@;
            let v = self.streams_with_pending_data@;
            assert forall|y: u32| v.contains(y) <==> (old_v.contains(y) || y == id) by {
                if v.len() > old_v.len() {
                    assert(v =~= old_v.push(id));
                    if old_v.contains(y) {
                        let j = choose|j: int| 0 <= j < old_v.len() && old_v[j] == y;
                        assert(v[j] == y);
                    }
                    if y == id {
                        assert(v[old_v.len() as int] == id);
                    }
                    if v.contains(y) && y != id {
                        let j = choose|j: int| 0 <= j < v.len() && v[j] == y;
                        assert(old_v[j] == y);
                    }
                }
            }
            assert(v.to_set() =~= old(self)@.pending.insert(id));
        }
    }
}

pub(crate) proof fn lemma_ids_len(s: &ConnState)
    requires
        s.wf(),
    ensures
        s.streams@.dom().len() == s.stream_ids@.len(),
        s.streams@.dom().finite(),
{
    assert(s.streams@.dom() =~= s.stream_ids@.to_set());
    s.stream_ids@.unique_seq_to_set();
}

pub(crate) fn vec_contains(v: &Vec<u32>, x: u32) -> (r: bool)
    ensures
        r == v@.contains(x),
{
    let mut k: usize = 0;
    while k < v.len()
        invariant
            k <= v@.len(),
            forall|j: int| 0 <= j < k ==> v@[j] != x,
        decreases v@.len() - k,
    {
        if v[k] == x {
            return true;
        }
        k = k + 1;
    }
    false
}

/// Removes `x` from a vector without duplicates.
fn remove_from_vec(v: &mut Vec<u32>, x: u32)
    requires
        old(v)@.no_duplicates(),
    ensures
        final(v)@.no_duplicates(),
        final(v)@.to_set() == old(v)@.to_set().remove(x),
        final(v)@.len() <= old(v)@.len(),
        forall|k: u32| final(v)@.contains(k) <==> (old(v)@.contains(k) && k != x),
{
    let mut k: usize = 0;
    while k < v.len()
        invariant
            v@ == old(v)@,
            old(v)@.no_duplicates(),
            k <= v@.len(),
            forall|j: int| 0 <= j < k ==> v@[j] != x,
        decreases v@.len() - k,
    {
        if v[k] == x {
            let ghost before = v@;
            v.remove(k);
            proof {
                assert(v@ =~= before.subrange(0, k as int) + before.subrange(k + 1, before.len() as int));
                assert forall|a: int, b: int| 0 <= a < v@.len() && 0 <= b < v@.len() && a != b implies v@[a]
                    != v@[b] by {
                    let a2 = if a < k { a } else { a + 1 };
                    let b2 = if b < k { b } else { b + 1 };
                    assert(v@[a] == before[a2]);
                    assert(v@[b] == before[b2]);
                }
                assert forall|y: u32| v@.contains(y) <==> (before.contains(y) && y != x) by {
                    if v@.contains(y) {
                        let j = choose|j: int| 0 <= j < v@.len() && v@[j] == y;
                        let j2 = if j < k { j } else { j + 1 };
                        assert(before[j2] == y);
                        assert(j2 != k);
                    }
                    if before.contains(y) && y != x {
                        let j = choose|j: int| 0 <= j < before.len() && before[j] == y;
                        assert(j != k);
                        if j < k {
                            assert(v@[j] == y);
                        } else {
                            assert(v@[j - 1] == y);
                        }
                    }
                }
                assert(v@.to_set() =~= before.to_set().remove(x));
            }
            return;
        }
        k = k + 1;
    }
    assert(v@.to_set() =~= old(v)@.to_set().remove(x));
}

} // verus!
