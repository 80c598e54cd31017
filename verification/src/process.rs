//! What an HTTP/2 server connection does with each frame it reads.
//!
//! Every frame either fails the connection (the state stays as it was, and
//! the error is answered with a GOAWAY) or moves the connection to its next
//! state and asks for a list of actions, in order.
use vstd::prelude::*;

use crate::bytes::be_value;
use crate::frame::{
    known_error_code_value, ErrorCode, GoAway, RstStream, has_flag, law_settings_apply_keeps_valid, parse_bit_and_u31, priority_spec_of_bytes,
    settings_apply, settings_apply_all, settings_entries, BitFlags, Frame, FrameType,
    PrioritySpec, Setting, Settings, SettingsError, StreamId,
};
use crate::h2::{
    BodyOutgoing, ConnState, ConnView, H2Action, H2ConnectionError, H2StreamError,
    HeadersOrTrailers, HeadersOutgoing, ReadHeadersMode, StreamIncoming, StreamOutgoing,
    StreamState, MAX_WINDOW_SIZE,
};
use crate::headers::{
    joined, pairs_view, request_head, request_head_spec, trailers, trailers_spec, HeaderBlockError,
    RequestHead,
};
use crate::hpack::{block_decoding, decoder_after, truncated_size_update_message, HpackCodec};
use std::collections::VecDeque;

verus! {

/// The connection invariant, as a plain predicate on a view.
pub open spec fn conn_view_wf_at(v: ConnView) -> bool {
    crate::h2::conn_view_wf(v)
}

/// The result of one step: the next state and the actions to perform, or the
/// error that ends the connection.
pub type Step = Result<(ConnView, Seq<H2Action>), H2ConnectionError>;

/// Two connection errors agree when they are equal, leaving aside the text
/// that some of them carry.
pub open spec fn same_error(a: H2ConnectionError, b: H2ConnectionError) -> bool {
    match a {
        H2ConnectionError::Internal(_) => b is Internal,
        H2ConnectionError::ReadError(_) => b is ReadError,
        H2ConnectionError::WriteError(_) => b is WriteError,
        H2ConnectionError::CompressionError(_) => b is CompressionError,
        _ => a == b,
    }
}

/// An executable step did what the specified step says: on success the new
/// state and the actions, on failure the error and an unchanged state.
pub open spec fn step_done(
    before: ConnView,
    after: ConnView,
    spec: Step,
    r: Result<Vec<H2Action>, H2ConnectionError>,
) -> bool {
    match spec {
        Ok((v, acts)) => r is Ok && r->Ok_0@ == acts && after == v,
        Err(e) => r is Err && same_error(r->Err_0, e) && after == before,
    }
}

/// The connection after a stream was reset: the stream is closed and has no
/// pending data.
pub open spec fn rst_view(v: ConnView, s: u32) -> ConnView {
    ConnView { streams: v.streams.remove(s), pending: v.pending.remove(s), ..v }
}

/// The connection with one stream state replaced.
pub open spec fn set_stream(v: ConnView, s: u32, st: StreamState) -> ConnView {
    ConnView { streams: v.streams.insert(s, st), ..v }
}

/// A DATA frame of `n` payload bytes (padding removed) on stream `s`.
pub open spec fn data_step(v: ConnView, s: u32, end_stream: bool, n: int) -> Step {
    if !v.streams.contains_key(s) {
        Err(H2ConnectionError::StreamClosed { stream_id: StreamId(s) })
    } else {
        let deliver = seq![H2Action::DeliverData { stream_id: StreamId(s), end_stream }];
        match v.streams[s] {
            StreamState::Open { incoming, outgoing } => {
                if incoming.capacity - n < 0 {
                    Err(H2ConnectionError::WindowUnderflow { stream_id: StreamId(s) })
                } else if end_stream {
                    Ok((set_stream(v, s, StreamState::HalfClosedRemote { outgoing }), deliver))
                } else {
                    let incoming = StreamIncoming { capacity: (incoming.capacity - n) as i64 };
                    Ok((set_stream(v, s, StreamState::Open { incoming, outgoing }), deliver))
                }
            },
            StreamState::HalfClosedLocal { incoming } => {
                if incoming.capacity - n < 0 {
                    Err(H2ConnectionError::WindowUnderflow { stream_id: StreamId(s) })
                } else if end_stream {
                    Ok((rst_view(v, s), deliver))
                } else {
                    let incoming = StreamIncoming { capacity: (incoming.capacity - n) as i64 };
                    Ok((set_stream(v, s, StreamState::HalfClosedLocal { incoming }), deliver))
                }
            },
            StreamState::HalfClosedRemote { .. } => Ok(
                (
                    rst_view(v, s),
                    seq![
                        H2Action::SendRst {
                            stream_id: StreamId(s),
                            error: H2StreamError::StreamClosed,
                        },
                    ],
                ),
            ),
        }
    }
}

/// The stream a 5-byte priority block makes the stream depend on.
pub open spec fn priority_dependency(block: Seq<u8>) -> u32 {
    priority_spec_of_bytes(block).stream_dependency.0
}

/// Accepting one more stream would exceed what we allow the peer.
pub open spec fn at_stream_limit(v: ConnView) -> bool {
    match v.self_settings.max_concurrent_streams {
        Some(m) => v.streams.dom().len() + 1 > m,
        None => false,
    }
}

/// The request to read the header block that a HEADERS frame starts.
pub open spec fn read_headers_action(
    s: u32,
    kind: HeadersOrTrailers,
    mode: ReadHeadersMode,
    bits: u8,
) -> H2Action {
    H2Action::ReadHeaders {
        stream_id: StreamId(s),
        kind,
        mode,
        end_stream: has_flag(bits, 0x01),
        end_headers: has_flag(bits, 0x04),
        fragment_start: if has_flag(bits, 0x20) { 5 } else { 0 },
    }
}

/// A HEADERS frame with flags `bits` on stream `s`: it opens a stream (or
/// refuses one), or carries trailers.
pub open spec fn headers_step(v: ConnView, s: u32, bits: u8, payload: Seq<u8>) -> Step {
    let has_pri = has_flag(bits, 0x20);
    if has_pri && payload.len() < 5 {
        Err(H2ConnectionError::Internal(arbitrary()))
    } else if has_pri && priority_dependency(payload) == s {
        Err(H2ConnectionError::HeadersInvalidPriority { stream_id: StreamId(s) })
    } else if !v.streams.contains_key(s) {
        if s % 2 == 0 {
            Err(H2ConnectionError::ClientSidShouldBeOdd)
        } else if s < v.last_stream_id.0 {
            Err(
                H2ConnectionError::ClientSidShouldBeNumericallyIncreasing {
                    stream_id: StreamId(s),
                    last_stream_id: v.last_stream_id,
                },
            )
        } else if s == v.last_stream_id.0 {
            Err(H2ConnectionError::StreamClosed { stream_id: StreamId(s) })
        } else if at_stream_limit(v) {
            Ok(
                (
                    v,
                    seq![
                        H2Action::SendRst {
                            stream_id: StreamId(s),
                            error: H2StreamError::RefusedStream,
                        },
                        read_headers_action(
                            s,
                            HeadersOrTrailers::Headers,
                            ReadHeadersMode::Skip,
                            bits,
                        ),
                    ],
                ),
            )
        } else {
            Ok(
                (
                    ConnView { last_stream_id: StreamId(s), ..v },
                    seq![
                        read_headers_action(
                            s,
                            HeadersOrTrailers::Headers,
                            ReadHeadersMode::Process,
                            bits,
                        ),
                    ],
                ),
            )
        }
    } else if v.streams[s] is HalfClosedRemote {
        Err(H2ConnectionError::StreamClosed { stream_id: StreamId(s) })
    } else if has_flag(bits, 0x01) {
        Ok(
            (
                v,
                seq![
                    read_headers_action(
                        s,
                        HeadersOrTrailers::Trailers,
                        ReadHeadersMode::Process,
                        bits,
                    ),
                ],
            ),
        )
    } else {
        Ok(
            (
                rst_view(v, s),
                seq![
                    H2Action::SendRst {
                        stream_id: StreamId(s),
                        error: H2StreamError::TrailersNotEndStream,
                    },
                    read_headers_action(s, HeadersOrTrailers::Trailers, ReadHeadersMode::Skip, bits),
                ],
            ),
        )
    }
}

/// A PRIORITY frame of declared length `len` on stream `s`.
pub open spec fn priority_step(v: ConnView, s: u32, len: u32, payload: Seq<u8>) -> Step {
    if payload.len() < 5 {
        Ok(
            (
                rst_view(v, s),
                seq![
                    H2Action::SendRst {
                        stream_id: StreamId(s),
                        error: H2StreamError::InvalidPriorityFrameSize { frame_size: len },
                    },
                ],
            ),
        )
    } else if priority_dependency(payload) == s {
        Err(H2ConnectionError::HeadersInvalidPriority { stream_id: StreamId(s) })
    } else {
        Ok((v, seq![]))
    }
}

/// A RST_STREAM frame of declared length `len` on stream `s`: the stream is
/// closed, and its request body learns that it was reset.
pub open spec fn rst_stream_step(v: ConnView, s: u32, len: u32) -> Step {
    if len != 4 {
        Ok(
            (
                rst_view(v, s),
                seq![
                    H2Action::SendRst {
                        stream_id: StreamId(s),
                        error: H2StreamError::InvalidRstStreamFrameSize { frame_size: len },
                    },
                ],
            ),
        )
    } else if !v.streams.contains_key(s) {
        Err(H2ConnectionError::RstStreamForUnknownStream { stream_id: StreamId(s) })
    } else if v.streams[s].incoming_spec() is Some {
        Ok((rst_view(v, s), seq![H2Action::DeliverReset { stream_id: StreamId(s) }]))
    } else {
        Ok((rst_view(v, s), seq![]))
    }
}

/// A PING frame: answered with a PING carrying the ACK flag, unless it is
/// itself an answer.
pub open spec fn ping_step(v: ConnView, s: u32, bits: u8, len: u32) -> Step {
    if s != 0 {
        Err(H2ConnectionError::PingFrameWithNonZeroStreamId { stream_id: StreamId(s) })
    } else if len != 8 {
        Err(H2ConnectionError::PingFrameInvalidLength { len })
    } else if has_flag(bits, 0x01) {
        Ok((v, seq![]))
    } else {
        Ok((v, seq![H2Action::SendPong]))
    }
}

/// A GOAWAY frame: the peer is going away.
pub open spec fn goaway_step(v: ConnView, s: u32) -> Step {
    if s != 0 {
        Err(H2ConnectionError::GoAwayWithNonZeroStreamId { stream_id: StreamId(s) })
    } else {
        Ok((ConnView { goaway_recv: true, ..v }, seq![]))
    }
}

/// The window increment a 4-byte WINDOW_UPDATE payload carries.
pub open spec fn window_increment(payload: Seq<u8>) -> nat {
    be_value(payload.subrange(0, 4)) % 0x8000_0000
}

/// A WINDOW_UPDATE frame on stream `s` (0: the connection) gives the peer's
/// receiving window more room.
pub open spec fn window_update_step(v: ConnView, s: u32, payload: Seq<u8>) -> Step {
    if payload.len() != 4 {
        Err(H2ConnectionError::WindowUpdateInvalidLength { len: payload.len() as usize })
    } else if window_increment(payload) == 0 {
        Err(H2ConnectionError::WindowUpdateZeroIncrement)
    } else if s == 0 {
        if v.outgoing_capacity + window_increment(payload) > MAX_WINDOW_SIZE {
            Err(H2ConnectionError::WindowUpdateOverflow)
        } else {
            Ok(
                (
                    ConnView {
                        outgoing_capacity: (v.outgoing_capacity + window_increment(
                            payload,
                        )) as i64,
                        ..v
                    },
                    seq![H2Action::NotifySendData],
                ),
            )
        }
    } else if !v.streams.contains_key(s) || v.streams[s].outgoing_capacity_spec() is None {
        Err(H2ConnectionError::WindowUpdateForUnknownOrClosedStream { stream_id: StreamId(s) })
    } else {
        let c = v.streams[s].outgoing_capacity_spec()->Some_0;
        let next = c + window_increment(payload);
        if next > MAX_WINDOW_SIZE {
            Ok(
                (
                    rst_view(v, s),
                    seq![
                        H2Action::SendRst {
                            stream_id: StreamId(s),
                            error: H2StreamError::WindowUpdateOverflow,
                        },
                    ],
                ),
            )
        } else {
            let v2 = set_stream(v, s, v.streams[s].with_outgoing_capacity(next as i64));
            if c <= 0 && next > 0 {
                Ok(
                    (
                        ConnView { pending: v.pending.insert(s), ..v2 },
                        if v.outgoing_capacity > 0 {
                            seq![H2Action::NotifySendData]
                        } else {
                            seq![]
                        },
                    ),
                )
            } else {
                Ok((v2, seq![]))
            }
        }
    }
}

/// A stream's sending window after the peer's initial window size moved by
/// `delta`.
pub open spec fn shift_outgoing(st: StreamState, delta: int) -> StreamState {
    match st.outgoing_capacity_spec() {
        Some(c) => st.with_outgoing_capacity((c + delta) as i64),
        None => st,
    }
}

/// Every stream's sending window moved by `delta`.
pub open spec fn shifted_streams(m: Map<u32, StreamState>, delta: int) -> Map<u32, StreamState> {
    Map::new(|k: u32| m.contains_key(k), |k: u32| shift_outgoing(m[k], delta))
}

/// Moving the windows by `delta` would take stream `id`'s sending window
/// over the maximum.
pub open spec fn overflows(v: ConnView, delta: int, id: u32) -> bool {
    &&& v.streams.contains_key(id)
    &&& v.streams[id].outgoing_capacity_spec() matches Some(c) && c + delta > MAX_WINDOW_SIZE
}

/// Moving the windows by `delta` gives stream `id` room to send again.
pub open spec fn wakes(v: ConnView, delta: int, id: u32) -> bool {
    &&& v.streams.contains_key(id)
    &&& v.streams[id].outgoing_capacity_spec() matches Some(c) && c <= 0 && c + delta > 0
}

/// The smallest stream whose window would overflow.
pub open spec fn first_overflow(v: ConnView, delta: int) -> u32 {
    choose|id: u32| overflows(v, delta, id) && forall|j: u32| overflows(v, delta, j) ==> id <= j
}

/// A SETTINGS frame with flags `bits` on stream `s`: the peer's settings
/// change, every stream's sending window follows the new initial window size,
/// and the frame is acknowledged.
pub open spec fn settings_step(v: ConnView, s: u32, bits: u8, payload: Seq<u8>) -> Step {
    if s != 0 {
        Err(H2ConnectionError::SettingsWithNonZeroStreamId { stream_id: StreamId(s) })
    } else if has_flag(bits, 0x01) {
        if payload.len() != 0 {
            Err(H2ConnectionError::SettingsAckWithPayload { len: payload.len() as u32 })
        } else {
            Ok((v, seq![]))
        }
    } else if payload.len() % 6 != 0 {
        Err(H2ConnectionError::ReadError(arbitrary()))
    } else {
        match settings_apply_all(v.peer_settings, settings_entries(payload)) {
            Err(_) => Err(H2ConnectionError::ReadError(arbitrary())),
            Ok(ns) => {
                let delta = ns.initial_window_size - v.peer_settings.initial_window_size;
                if exists|id: u32| overflows(v, delta, id) {
                    Err(
                        H2ConnectionError::StreamWindowSizeOverflowDueToSettings {
                            stream_id: StreamId(first_overflow(v, delta)),
                        },
                    )
                } else {
                    Ok(
                        (
                            ConnView {
                                streams: shifted_streams(v.streams, delta),
                                peer_settings: ns,
                                ..v
                            },
                            seq![
                                H2Action::SetEncoderMaxTableSize { size: ns.header_table_size },
                                H2Action::AckSettings,
                            ] + if exists|id: u32| wakes(v, delta, id) {
                                seq![H2Action::NotifySendData]
                            } else {
                                seq![]
                            },
                        ),
                    )
                }
            },
        }
    }
}

/// What a frame does to the connection; `payload` is the frame's payload
/// with any padding removed.
pub open spec fn frame_step(v: ConnView, f: Frame, payload: Seq<u8>) -> Step {
    let s = f.stream_id.0;
    match f.frame_type {
        FrameType::Data(fl) => data_step(v, s, has_flag(fl.bits, 0x01), payload.len() as int),
        FrameType::Headers(fl) => headers_step(v, s, fl.bits, payload),
        FrameType::Priority => priority_step(v, s, f.len, payload),
        FrameType::RstStream => rst_stream_step(v, s, f.len),
        FrameType::Settings(fl) => settings_step(v, s, fl.bits, payload),
        FrameType::PushPromise => Err(H2ConnectionError::ClientSentPushPromise),
        FrameType::Ping(fl) => ping_step(v, s, fl.bits, f.len),
        FrameType::GoAway => goaway_step(v, s),
        FrameType::WindowUpdate => window_update_step(v, s, payload),
        FrameType::Continuation(_) => Err(
            H2ConnectionError::UnexpectedContinuationFrame { stream_id: f.stream_id },
        ),
        FrameType::Unknown(_) => Ok((v, seq![])),
    }
}

/// The sending side of a stream that was just opened: no headers yet, an
/// empty body that may still grow, and the peer's initial window.
pub open spec fn fresh_outgoing(o: StreamOutgoing, v: ConnView) -> bool {
    &&& o.headers is WaitingForHeaders
    &&& o.body matches BodyOutgoing::StillReceiving(q) && q@.len() == 0
    &&& o.capacity == v.peer_settings.initial_window_size
}

/// The state of a stream that was just opened by a request; with END_STREAM
/// the peer has nothing more to send.
pub open spec fn fresh_stream(st: StreamState, v: ConnView, end_stream: bool) -> bool {
    if end_stream {
        st matches StreamState::HalfClosedRemote { outgoing } && fresh_outgoing(outgoing, v)
    } else {
        st matches StreamState::Open { incoming, outgoing } && incoming.capacity
            == v.self_settings.initial_window_size && fresh_outgoing(outgoing, v)
    }
}

/// What a complete header block turned out to be.
pub enum HeaderBlockOutcome {
    /// the block belonged to a refused stream or to refused trailers, and was
    /// not decoded
    Skipped,
    /// a new request; its stream is now open
    Request(RequestHead),
    /// the trailers of a request body; the stream is now closed
    Trailers(Vec<(Vec<u8>, Vec<u8>)>),
    /// the block cannot be used; the state is unchanged
    Malformed(HeaderBlockError),
}

impl ConnState {
    /// Resets a stream: it is closed, and the peer is told why.
    pub fn rst(&mut self, s: u32, error: H2StreamError) -> (r: H2Action)
        requires
            old(self).wf(),
        ensures
            final(self).wf(),
            final(self)@ == rst_view(old(self)@, s),
            r == (H2Action::SendRst { stream_id: StreamId(s), error }),
    {
        let _ = self.remove_stream(s);
        H2Action::SendRst { stream_id: StreamId(s), error }
    }

    /// Replaces the state of a stream that is not closed.
    fn replace_stream(&mut self, s: u32, st: StreamState)
        requires
            old(self).wf(),
            old(self)@.streams.contains_key(s),
            crate::h2::stream_windows_ok(st, old(self)@.peer_settings.initial_window_size),
            old(self)@.pending.contains(s) ==> st.outgoing_capacity_spec() is Some,
        ensures
            final(self).wf(),
            final(self)@ == set_stream(old(self)@, s, st),
    {
        self.insert_stream(s, st);
    }

    /// A DATA frame with a payload of `n` bytes arrived on stream `s`.
    pub fn on_data(&mut self, s: u32, end_stream: bool, n: usize) -> (r: Result<
        Vec<H2Action>,
        H2ConnectionError,
    >)
        requires
            old(self).wf(),
        ensures
            final(self).wf(),
            step_done(old(self)@, final(self)@, data_step(old(self)@, s, end_stream, n as int), r),
    {
        if !self.streams.contains_key(&s) {
            return Err(H2ConnectionError::StreamClosed { stream_id: StreamId(s) });
        }
        let deliver = H2Action::DeliverData { stream_id: StreamId(s), end_stream };
        let cap_opt = match self.streams.get(&s) {
            Some(st) => st.incoming_capacity(),
            None => None,
        };
        match cap_opt {
            None => {
                let a = self.rst(s, H2StreamError::StreamClosed);
                let mut acts = Vec::new();
                acts.push(a);
                return Ok(acts);
            },
            Some(cap) => {
                if (n as u64) > (cap as u64) || cap < 0 {
                    return Err(H2ConnectionError::WindowUnderflow { stream_id: StreamId(s) });
                }
                let next_cap = cap - (n as i64);
                let ghost v0 = self@;
                let st = self.streams.remove(&s);
                match st {
                    Some(StreamState::Open { incoming, outgoing }) => {
                        if end_stream {
                            self.streams.insert(s, StreamState::HalfClosedRemote { outgoing });
                            proof {
                                assert(self@ =~= set_stream(
                                    v0,
                                    s,
                                    StreamState::HalfClosedRemote { outgoing },
                                ));
                            }
                        } else {
                            let inc = StreamIncoming { capacity: next_cap };
                            self.streams.insert(s, StreamState::Open { incoming: inc, outgoing });
                            proof {
                                assert(self@ =~= set_stream(
                                    v0,
                                    s,
                                    StreamState::Open { incoming: inc, outgoing },
                                ));
                            }
                        }
                    },
                    Some(StreamState::HalfClosedLocal { incoming }) => {
                        let inc = StreamIncoming { capacity: next_cap };
                        self.streams.insert(s, StreamState::HalfClosedLocal { incoming: inc });
                        if end_stream {
                            let _ = self.remove_stream(s);
                            proof {
                                assert(self@ =~= rst_view(v0, s));
                            }
                        } else {
                            proof {
                                assert(self@ =~= set_stream(
                                    v0,
                                    s,
                                    StreamState::HalfClosedLocal { incoming: inc },
                                ));
                            }
                        }
                    },
                    Some(other) => {
                        self.streams.insert(s, other);
                    },
                    None => {},
                }
                let mut acts = Vec::new();
                acts.push(deliver);
                Ok(acts)
            },
        }
    }

    fn one(a: H2Action) -> (r: Vec<H2Action>)
        ensures
            r@ == seq![a],
    {
        let mut v = Vec::new();
        v.push(a);
        v
    }

    fn two(a: H2Action, b: H2Action) -> (r: Vec<H2Action>)
        ensures
            r@ == seq![a, b],
    {
        let mut v = Vec::new();
        v.push(a);
        v.push(b);
        v
    }

    /// A HEADERS frame with the given flags arrived on stream `s`; `payload`
    /// is what follows the frame header, padding removed.
    pub fn on_headers(&mut self, s: u32, flags: BitFlags, payload: &[u8]) -> (r: Result<
        Vec<H2Action>,
        H2ConnectionError,
    >)
        requires
            old(self).wf(),
        ensures
            final(self).wf(),
            step_done(old(self)@, final(self)@, headers_step(old(self)@, s, flags.bits, payload@), r),
    {
        let has_pri = flags.contains(0x20);
        if has_pri {
            match PrioritySpec::parse(payload) {
                Err(_) => {
                    return Err(H2ConnectionError::Internal("parsing error: priority block".to_owned()));
                },
                Ok((_, pri)) => {
                    if pri.stream_dependency.0 == s {
                        return Err(
                            H2ConnectionError::HeadersInvalidPriority { stream_id: StreamId(s) },
                        );
                    }
                },
            }
        }
        let end_stream = flags.contains(0x01);
        let end_headers = flags.contains(0x04);
        let fragment_start: usize = if has_pri { 5 } else { 0 };
        let ghost bits = flags.bits;
        if !self.streams.contains_key(&s) {
            if s % 2 == 0 {
                return Err(H2ConnectionError::ClientSidShouldBeOdd);
            }
            if s < self.last_stream_id.0 {
                return Err(
                    H2ConnectionError::ClientSidShouldBeNumericallyIncreasing {
                        stream_id: StreamId(s),
                        last_stream_id: self.last_stream_id,
                    },
                );
            }
            if s == self.last_stream_id.0 {
                return Err(H2ConnectionError::StreamClosed { stream_id: StreamId(s) });
            }
            proof {
                crate::h2::lemma_ids_len(self);
            }
            let n = self.streams.len();
            let refuse = match self.self_settings.max_concurrent_streams {
                Some(m) => n + 1 > m as usize,
                None => false,
            };
            if refuse {
                let ghost v0 = self@;
                let a = self.rst(s, H2StreamError::RefusedStream);
                proof {
                    assert(self@ =~= v0);
                }
                let b = H2Action::ReadHeaders {
                    stream_id: StreamId(s),
                    kind: HeadersOrTrailers::Headers,
                    mode: ReadHeadersMode::Skip,
                    end_stream,
                    end_headers,
                    fragment_start,
                };
                return Ok(Self::two(a, b));
            }
            self.last_stream_id = StreamId(s);
            let b = H2Action::ReadHeaders {
                stream_id: StreamId(s),
                kind: HeadersOrTrailers::Headers,
                mode: ReadHeadersMode::Process,
                end_stream,
                end_headers,
                fragment_start,
            };
            return Ok(Self::one(b));
        }
        let half_closed_remote = match self.streams.get(&s) {
            Some(StreamState::HalfClosedRemote { .. }) => true,
            _ => false,
        };
        if half_closed_remote {
            return Err(H2ConnectionError::StreamClosed { stream_id: StreamId(s) });
        }
        if end_stream {
            let b = H2Action::ReadHeaders {
                stream_id: StreamId(s),
                kind: HeadersOrTrailers::Trailers,
                mode: ReadHeadersMode::Process,
                end_stream,
                end_headers,
                fragment_start,
            };
            Ok(Self::one(b))
        } else {
            let a = self.rst(s, H2StreamError::TrailersNotEndStream);
            let b = H2Action::ReadHeaders {
                stream_id: StreamId(s),
                kind: HeadersOrTrailers::Trailers,
                mode: ReadHeadersMode::Skip,
                end_stream,
                end_headers,
                fragment_start,
            };
            Ok(Self::two(a, b))
        }
    }

    /// A PRIORITY frame of declared length `len` arrived on stream `s`.
    pub fn on_priority(&mut self, s: u32, len: u32, payload: &[u8]) -> (r: Result<
        Vec<H2Action>,
        H2ConnectionError,
    >)
        requires
            old(self).wf(),
        ensures
            final(self).wf(),
            step_done(old(self)@, final(self)@, priority_step(old(self)@, s, len, payload@), r),
    {
        match PrioritySpec::parse(payload) {
            Err(_) => {
                let a = self.rst(s, H2StreamError::InvalidPriorityFrameSize { frame_size: len });
                Ok(Self::one(a))
            },
            Ok((_, pri)) => {
                if pri.stream_dependency.0 == s {
                    Err(H2ConnectionError::HeadersInvalidPriority { stream_id: StreamId(s) })
                } else {
                    Ok(Vec::new())
                }
            },
        }
    }

    /// A RST_STREAM frame of declared length `len` arrived on stream `s`.
    pub fn on_rst_stream(&mut self, s: u32, len: u32) -> (r: Result<Vec<H2Action>, H2ConnectionError>)
        requires
            old(self).wf(),
        ensures
            final(self).wf(),
            step_done(old(self)@, final(self)@, rst_stream_step(old(self)@, s, len), r),
    {
        if len != 4 {
            let a = self.rst(s, H2StreamError::InvalidRstStreamFrameSize { frame_size: len });
            return Ok(Self::one(a));
        }
        match self.remove_stream(s) {
            None => {
                proof {
                    assert(self@.pending =~= old(self)@.pending);
                    assert(self@ =~= old(self)@);
                }
                Err(H2ConnectionError::RstStreamForUnknownStream { stream_id: StreamId(s) })
            },
            Some(st) => {
                if st.incoming_capacity().is_some() {
                    Ok(Self::one(H2Action::DeliverReset { stream_id: StreamId(s) }))
                } else {
                    Ok(Vec::new())
                }
            },
        }
    }

    /// A PING frame of declared length `len` arrived on stream `s`.
    pub fn on_ping(&mut self, s: u32, flags: BitFlags, len: u32) -> (r: Result<
        Vec<H2Action>,
        H2ConnectionError,
    >)
        requires
            old(self).wf(),
        ensures
            final(self).wf(),
            step_done(old(self)@, final(self)@, ping_step(old(self)@, s, flags.bits, len), r),
    {
        if s != 0 {
            return Err(H2ConnectionError::PingFrameWithNonZeroStreamId { stream_id: StreamId(s) });
        }
        if len != 8 {
            return Err(H2ConnectionError::PingFrameInvalidLength { len });
        }
        if flags.contains(0x01) {
            Ok(Vec::new())
        } else {
            Ok(Self::one(H2Action::SendPong))
        }
    }

    /// A GOAWAY frame arrived on stream `s`.
    pub fn on_goaway(&mut self, s: u32) -> (r: Result<Vec<H2Action>, H2ConnectionError>)
        requires
            old(self).wf(),
        ensures
            final(self).wf(),
            step_done(old(self)@, final(self)@, goaway_step(old(self)@, s), r),
    {
        if s != 0 {
            return Err(H2ConnectionError::GoAwayWithNonZeroStreamId { stream_id: StreamId(s) });
        }
        self.goaway_recv = true;
        Ok(Vec::new())
    }

    /// A WINDOW_UPDATE frame arrived on stream `s`.
    pub fn on_window_update(&mut self, s: u32, payload: &[u8]) -> (r: Result<
        Vec<H2Action>,
        H2ConnectionError,
    >)
        requires
            old(self).wf(),
        ensures
            final(self).wf(),
            step_done(old(self)@, final(self)@, window_update_step(old(self)@, s, payload@), r),
    {
        if payload.len() != 4 {
            return Err(H2ConnectionError::WindowUpdateInvalidLength { len: payload.len() });
        }
        let inc = match parse_bit_and_u31(payload) {
            Ok((_, (_, inc))) => inc,
            Err(_) => {
                return Err(H2ConnectionError::Internal("parsing error: window update".to_owned()));
            },
        };
        if inc == 0 {
            return Err(H2ConnectionError::WindowUpdateZeroIncrement);
        }
        if s == 0 {
            let next = self.outgoing_capacity + inc as i64;
            if next > MAX_WINDOW_SIZE {
                return Err(H2ConnectionError::WindowUpdateOverflow);
            }
            self.outgoing_capacity = next;
            return Ok(Self::one(H2Action::NotifySendData));
        }
        let cap = match self.streams.get(&s) {
            Some(st) => st.outgoing_capacity(),
            None => None,
        };
        let c = match cap {
            None => {
                return Err(
                    H2ConnectionError::WindowUpdateForUnknownOrClosedStream {
                        stream_id: StreamId(s),
                    },
                );
            },
            Some(c) => c,
        };
        let next = c + inc as i64;
        if next > MAX_WINDOW_SIZE {
            let a = self.rst(s, H2StreamError::WindowUpdateOverflow);
            return Ok(Self::one(a));
        }
        let ghost v0 = self@;
        let st = match self.streams.remove(&s) {
            Some(st) => st,
            None => {
                return Err(H2ConnectionError::Internal("missing stream".to_owned()));
            },
        };
        let ghost old_st = st;
        let st2 = st.set_outgoing_capacity(next);
        self.streams.insert(s, st2);
        proof {
            assert(self@ =~= set_stream(v0, s, old_st.with_outgoing_capacity(next)));
        }
        if c <= 0 && next > 0 {
            self.add_pending(s);
            if self.outgoing_capacity > 0 {
                return Ok(Self::one(H2Action::NotifySendData));
            }
        }
        Ok(Vec::new())
    }

    /// Looks for the smallest stream whose sending window would overflow if
    /// moved by `delta`, and for whether some stream would get room to send.
    fn scan_window_shift(&self, delta: i64) -> (r: (Option<u32>, bool))
        requires
            self.wf(),
            -0x8000_0000 <= delta <= 0x8000_0000,
        ensures
            r.0 matches Some(m) ==> (overflows(self@, delta as int, m) && forall|j: u32|
                overflows(self@, delta as int, j) ==> m <= j),
            r.0 is None ==> forall|j: u32| !overflows(self@, delta as int, j),
            r.1 <==> exists|id: u32| wakes(self@, delta as int, id),
    {
        let n = self.stream_ids.len();
        let mut k: usize = 0;
        let mut min_over: Option<u32> = None;
        let mut wake = false;
        while k < n
            invariant
                self.wf(),
                -0x8000_0000 <= delta <= 0x8000_0000,
                n == self.stream_ids@.len(),
                k <= n,
                min_over matches Some(m) ==> overflows(self@, delta as int, m),
                forall|j: int|
                    0 <= j < k && overflows(self@, delta as int, #[trigger] self.stream_ids@[j])
                        ==> (min_over matches Some(m) && m <= self.stream_ids@[j]),
                wake ==> exists|id: u32| wakes(self@, delta as int, id),
                !wake ==> forall|j: int|
                    0 <= j < k ==> !wakes(self@, delta as int, #[trigger] self.stream_ids@[j]),
            decreases n - k,
        {
            let id = self.stream_ids[k];
            let cap = match self.streams.get(&id) {
                Some(st) => st.outgoing_capacity(),
                None => None,
            };
            match cap {
                Some(c) => {
                    let next = c + delta;
                    if next > MAX_WINDOW_SIZE {
                        min_over = match min_over {
                            Some(m) => if id < m {
                                Some(id)
                            } else {
                                Some(m)
                            },
                            None => Some(id),
                        };
                    }
                    if c <= 0 && next > 0 {
                        wake = true;
                        assert(wakes(self@, delta as int, id));
                    }
                },
                None => {},
            }
            k = k + 1;
        }
        proof {
            assert forall|j: u32| overflows(self@, delta as int, j) implies (min_over matches Some(
                m,
            ) && m <= j) by {
                assert(self.stream_ids@.contains(j));
                let i = choose|i: int| 0 <= i < self.stream_ids@.len() && self.stream_ids@[i] == j;
                assert(overflows(self@, delta as int, self.stream_ids@[i]));
            }
            if !wake {
                assert forall|id: u32| !wakes(self@, delta as int, id) by {
                    if wakes(self@, delta as int, id) {
                        assert(self.stream_ids@.contains(id));
                        let i = choose|i: int|
                            0 <= i < self.stream_ids@.len() && self.stream_ids@[i] == id;
                        assert(!wakes(self@, delta as int, self.stream_ids@[i]));
                    }
                }
            }
        }
        (min_over, wake)
    }

    /// Moves every stream's sending window by `delta` and installs the peer's
    /// new settings.
    fn shift_windows(&mut self, delta: i64, ns: Settings)
        requires
            old(self).wf(),
            crate::frame::settings_valid(ns),
            delta == ns.initial_window_size - old(self)@.peer_settings.initial_window_size,
            forall|j: u32| !overflows(old(self)@, delta as int, j),
        ensures
            final(self).wf(),
            final(self)@ == (ConnView {
                streams: shifted_streams(old(self)@.streams, delta as int),
                peer_settings: ns,
                ..old(self)@
            }),
    {
        let n = self.stream_ids.len();
        let ghost v0 = self@;
        let ghost ids = self.stream_ids@;
        let mut k: usize = 0;
        while k < n
            invariant
                n == ids.len(),
                k <= n,
                self.stream_ids@ == ids,
                ids.no_duplicates(),
                self.streams_with_pending_data == old(self).streams_with_pending_data,
                self@ == (ConnView { streams: self@.streams, ..v0 }),
                forall|id: u32| #[trigger] v0.streams.contains_key(id) <==> ids.contains(id),
                self.streams@.dom() == v0.streams.dom(),
                forall|id: u32| #[trigger]
                    v0.streams.contains_key(id) ==> self.streams@[id] == if ids.subrange(
                        0,
                        k as int,
                    ).contains(id) {
                        shift_outgoing(v0.streams[id], delta as int)
                    } else {
                        v0.streams[id]
                    },
                conn_view_wf_at(v0),
                -0x8000_0000 <= delta <= 0x8000_0000,
            decreases n - k,
        {
            let id = self.stream_ids[k];
            proof {
                assert(ids.contains(id));
                let pre = ids.subrange(0, k as int);
                assert(!pre.contains(id)) by {
                    if pre.contains(id) {
                        let i = choose|i: int| 0 <= i < pre.len() && #[trigger] pre[i] == id;
                        assert(ids[i] == ids[k as int]);
                    }
                }
            }
            let ghost before = self.streams@;
            match self.streams.remove(&id) {
                Some(st) => {
                    let st2 = match st.outgoing_capacity() {
                        Some(c) => st.set_outgoing_capacity(c + delta),
                        None => st,
                    };
                    self.streams.insert(id, st2);
                },
                None => {},
            }
            proof {
                let pre = ids.subrange(0, k as int);
                let pre1 = ids.subrange(0, k + 1);
                assert(pre1 =~= pre.push(id));
                assert(self.streams@.dom() =~= v0.streams.dom());
                assert forall|j: u32| #[trigger] v0.streams.contains_key(j) implies self.streams@[j]
                    == if pre1.contains(j) {
                    shift_outgoing(v0.streams[j], delta as int)
                } else {
                    v0.streams[j]
                } by {
                    assert(pre1.contains(j) <==> (pre.contains(j) || j == id)) by {
                        if pre.contains(j) {
                            let i = choose|i: int| 0 <= i < pre.len() && #[trigger] pre[i] == j;
                            assert(pre1[i] == j);
                        }
                        if j == id {
                            assert(pre1[k as int] == id);
                        }
                        if pre1.contains(j) && j != id {
                            let i = choose|i: int| 0 <= i < pre1.len() && #[trigger] pre1[i] == j;
                            assert(i != k);
                            assert(pre[i] == j);
                        }
                    }
                }
            }
            k = k + 1;
        }
        self.peer_settings = ns;
        proof {
            assert(ids.subrange(0, n as int) =~= ids);
            assert(self.streams@ =~= shifted_streams(v0.streams, delta as int));
            assert forall|id: u32| #[trigger]
                self@.streams.contains_key(id) implies crate::h2::stream_windows_ok(
                self@.streams[id],
                ns.initial_window_size,
            ) by {
                assert(crate::h2::stream_windows_ok(
                    v0.streams[id],
                    v0.peer_settings.initial_window_size,
                ));
                assert(!overflows(v0, delta as int, id));
            }
            assert forall|id: u32| #[trigger]
                self@.pending.contains(id) implies self@.streams.contains_key(id)
                && self@.streams[id].outgoing_capacity_spec() is Some by {
                assert(v0.pending.contains(id));
            }
        }
    }

    /// A SETTINGS frame arrived on stream `s`.
    pub fn on_settings(&mut self, s: u32, flags: BitFlags, payload: &[u8]) -> (r: Result<
        Vec<H2Action>,
        H2ConnectionError,
    >)
        requires
            old(self).wf(),
        ensures
            final(self).wf(),
            step_done(old(self)@, final(self)@, settings_step(old(self)@, s, flags.bits, payload@), r),
    {
        if s != 0 {
            return Err(H2ConnectionError::SettingsWithNonZeroStreamId { stream_id: StreamId(s) });
        }
        if flags.contains(0x01) {
            if payload.len() != 0 {
                return Err(H2ConnectionError::SettingsAckWithPayload { len: #[verifier::truncate] (payload.len() as u32) });
            }
            return Ok(Vec::new());
        }
        if payload.len() % 6 != 0 {
            return Err(H2ConnectionError::ReadError("could not parse settings frame".to_owned()));
        }
        let ns = match self.peer_settings.apply_payload(payload) {
            Err(_) => {
                return Err(H2ConnectionError::ReadError("could not parse settings frame".to_owned()));
            },
            Ok(ns) => ns,
        };
        proof {
            law_settings_apply_keeps_valid(self.peer_settings, settings_entries(payload@));
        }
        let delta = ns.initial_window_size as i64 - self.peer_settings.initial_window_size as i64;
        let (min_over, wake) = self.scan_window_shift(delta);
        match min_over {
            Some(m) => {
                proof {
                    let f = first_overflow(self@, delta as int);
                    assert(overflows(self@, delta as int, f) && forall|j: u32|
                        overflows(self@, delta as int, j) ==> f <= j);
                    assert(f == m);
                }
                return Err(
                    H2ConnectionError::StreamWindowSizeOverflowDueToSettings {
                        stream_id: StreamId(m),
                    },
                );
            },
            None => {},
        }
        self.shift_windows(delta, ns);
        let mut acts = Vec::new();
        acts.push(H2Action::SetEncoderMaxTableSize { size: ns.header_table_size });
        acts.push(H2Action::AckSettings);
        let ghost base = seq![
            H2Action::SetEncoderMaxTableSize { size: ns.header_table_size },
            H2Action::AckSettings,
        ];
        if wake {
            acts.push(H2Action::NotifySendData);
            assert(acts@ =~= base + seq![H2Action::NotifySendData]);
        } else {
            assert(acts@ =~= base + Seq::<H2Action>::empty());
        }
        Ok(acts)
    }

    /// Processes one frame read from the peer. `payload` is the frame's
    /// payload with any padding removed. On success, the actions to perform
    /// are returned in order; on error, the state is unchanged and the
    /// connection is to be closed with a GOAWAY carrying the error's code.
    pub fn process_frame(&mut self, frame: Frame, payload: &[u8]) -> (r: Result<
        Vec<H2Action>,
        H2ConnectionError,
    >)
        requires
            old(self).wf(),
        ensures
            final(self).wf(),
            step_done(old(self)@, final(self)@, frame_step(old(self)@, frame, payload@), r),
    {
        let s = frame.stream_id.0;
        match frame.frame_type {
            FrameType::Data(fl) => self.on_data(s, fl.contains(0x01), payload.len()),
            FrameType::Headers(fl) => self.on_headers(s, fl, payload),
            FrameType::Priority => self.on_priority(s, frame.len, payload),
            FrameType::RstStream => self.on_rst_stream(s, frame.len),
            FrameType::Settings(fl) => self.on_settings(s, fl, payload),
            FrameType::PushPromise => Err(H2ConnectionError::ClientSentPushPromise),
            FrameType::Ping(fl) => self.on_ping(s, fl, frame.len),
            FrameType::GoAway => self.on_goaway(s),
            FrameType::WindowUpdate => self.on_window_update(s, payload),
            FrameType::Continuation(_) => Err(
                H2ConnectionError::UnexpectedContinuationFrame { stream_id: frame.stream_id },
            ),
            FrameType::Unknown(_) => Ok(Vec::new()),
        }
    }

    /// The sending side of a new stream.
    fn new_outgoing(&self) -> (r: StreamOutgoing)
        ensures
            fresh_outgoing(r, self@),
    {
        StreamOutgoing {
            headers: HeadersOutgoing::WaitingForHeaders,
            body: BodyOutgoing::StillReceiving(VecDeque::new()),
            capacity: self.peer_settings.initial_window_size as i64,
        }
    }

    /// Opens stream `s` for a request whose header block was accepted.
    pub fn accept_stream(&mut self, s: u32, end_stream: bool)
        requires
            old(self).wf(),
            !old(self)@.streams.contains_key(s),
            old(self)@.streams.dom().len() + 2 < usize::MAX,
        ensures
            final(self).wf(),
            final(self)@ == set_stream(old(self)@, s, final(self)@.streams[s]),
            fresh_stream(final(self)@.streams[s], old(self)@, end_stream),
    {
        proof {
            crate::h2::lemma_ids_len(self);
        }
        let outgoing = self.new_outgoing();
        let st = if end_stream {
            StreamState::HalfClosedRemote { outgoing }
        } else {
            StreamState::Open {
                incoming: StreamIncoming { capacity: self.self_settings.initial_window_size as i64 },
                outgoing,
            }
        };
        let ghost st_v = st;
        self.insert_stream(s, st);
        proof {
            assert(self@.streams[s] == st_v);
        }
    }

    /// What applying a decoded header block of stream `s` gives: the
    /// outcome `r` and the connection `v2`.
    pub open spec fn block_applied(
        v: ConnView,
        s: u32,
        kind: HeadersOrTrailers,
        end_stream: bool,
        pairs: Seq<(Seq<u8>, Seq<u8>)>,
        r: HeaderBlockOutcome,
        v2: ConnView,
    ) -> bool {
        &&& kind == HeadersOrTrailers::Headers ==> match request_head_spec(pairs) {
            Ok(h) => (r matches HeaderBlockOutcome::Request(req) && req@ == h && v2 == set_stream(
                v,
                s,
                v2.streams[s],
            ) && fresh_stream(v2.streams[s], v, end_stream)),
            Err(e) => (r matches HeaderBlockOutcome::Malformed(e2) && e2 == e && v2 == v),
        }
        &&& kind == HeadersOrTrailers::Trailers ==> match trailers_spec(pairs) {
            Ok(h) => (r matches HeaderBlockOutcome::Trailers(t) && pairs_view(t@) == h && v2
                == rst_view(v, s)),
            Err(e) => (r matches HeaderBlockOutcome::Malformed(e2) && e2 == e && v2 == v),
        }
    }

    /// Applies a complete, decoded header block of stream `s`: a request
    /// opens its stream, trailers close it.
    pub fn apply_header_block(
        &mut self,
        s: u32,
        kind: HeadersOrTrailers,
        end_stream: bool,
        pairs: &Vec<(Vec<u8>, Vec<u8>)>,
    ) -> (r: HeaderBlockOutcome)
        requires
            old(self).wf(),
            kind == HeadersOrTrailers::Headers ==> !old(self)@.streams.contains_key(s),
            old(self)@.streams.dom().len() + 2 < usize::MAX,
        ensures
            final(self).wf(),
            kind == HeadersOrTrailers::Headers ==> match request_head_spec(pairs_view(pairs@)) {
                Ok(h) => (r matches HeaderBlockOutcome::Request(req) && req@ == h && final(self)@
                    == set_stream(old(self)@, s, final(self)@.streams[s]) && fresh_stream(
                    final(self)@.streams[s],
                    old(self)@,
                    end_stream,
                )),
                Err(e) => (r matches HeaderBlockOutcome::Malformed(e2) && e2 == e && final(self)@
                    == old(self)@),
            },
            kind == HeadersOrTrailers::Trailers ==> match trailers_spec(pairs_view(pairs@)) {
                Ok(h) => (r matches HeaderBlockOutcome::Trailers(t) && pairs_view(t@) == h
                    && final(self)@ == rst_view(old(self)@, s)),
                Err(e) => (r matches HeaderBlockOutcome::Malformed(e2) && e2 == e && final(self)@
                    == old(self)@),
            },
    {
        match kind {
            HeadersOrTrailers::Headers => match request_head(pairs) {
                Ok(req) => {
                    self.accept_stream(s, end_stream);
                    HeaderBlockOutcome::Request(req)
                },
                Err(e) => HeaderBlockOutcome::Malformed(e),
            },
            HeadersOrTrailers::Trailers => match trailers(pairs) {
                Ok(t) => {
                    let _ = self.remove_stream(s);
                    HeaderBlockOutcome::Trailers(t)
                },
                Err(e) => HeaderBlockOutcome::Malformed(e),
            },
        }
    }

    /// Completes a header block read for stream `s` (its fragments, in
    /// order): a skipped block is dropped undecoded; otherwise it is decoded
    /// and applied. Only decoding can fail, as a compression error.
    pub fn finish_header_block(
        &mut self,
        codec: &mut HpackCodec,
        s: u32,
        kind: HeadersOrTrailers,
        mode: ReadHeadersMode,
        end_stream: bool,
        fragments: &Vec<Vec<u8>>,
    ) -> (r: Result<HeaderBlockOutcome, H2ConnectionError>)
        requires
            old(self).wf(),
            kind == HeadersOrTrailers::Headers ==> !old(self)@.streams.contains_key(s),
            old(self)@.streams.dom().len() + 2 < usize::MAX,
        ensures
            final(self).wf(),
            mode == ReadHeadersMode::Skip ==> (r matches Ok(HeaderBlockOutcome::Skipped)
                && final(self)@ == old(self)@),
            r matches Err(e) ==> (e is CompressionError && final(self)@ == old(self)@),
            r matches Ok(HeaderBlockOutcome::Request(_)) ==> kind == HeadersOrTrailers::Headers
                && final(self)@ == set_stream(old(self)@, s, final(self)@.streams[s])
                && fresh_stream(final(self)@.streams[s], old(self)@, end_stream),
            r matches Ok(HeaderBlockOutcome::Trailers(_)) ==> kind == HeadersOrTrailers::Trailers
                && final(self)@ == rst_view(old(self)@, s),
            r matches Ok(HeaderBlockOutcome::Malformed(_)) ==> final(self)@ == old(self)@,
            r matches Ok(HeaderBlockOutcome::Skipped) ==> mode == ReadHeadersMode::Skip,
            mode == ReadHeadersMode::Skip ==> *final(codec) == *old(codec),
            mode != ReadHeadersMode::Skip ==> decoder_after(
                old(codec).dec,
                final(codec).dec,
                joined(fragments@),
            ) && final(codec).enc == old(codec).enc,
            mode != ReadHeadersMode::Skip ==> match block_decoding(
                old(codec).dec,
                joined(fragments@),
            ) {
                Ok(pairs) => r matches Ok(o) && Self::block_applied(
                    old(self)@,
                    s,
                    kind,
                    end_stream,
                    pairs,
                    o,
                    final(self)@,
                ),
                Err(None) => r matches Err(e) && e matches H2ConnectionError::CompressionError(m)
                    && m@ == truncated_size_update_message(),
                Err(Some(msg)) => r matches Err(e) && e matches H2ConnectionError::CompressionError(
                    m,
                ) && m@ == msg,
            },
    {
        if mode == ReadHeadersMode::Skip {
            return Ok(HeaderBlockOutcome::Skipped);
        }
        let pairs = codec.decode_block(fragments)?;
        Ok(self.apply_header_block(s, kind, end_stream, &pairs))
    }

    /// The GOAWAY that answers a connection error: the highest stream the
    /// peer opened, the error's code, and `debug` as debug data.
    pub fn goaway_for(&self, err: &H2ConnectionError, debug: Vec<u8>) -> (r: GoAway)
        ensures
            r.last_stream_id == self@.last_stream_id,
            r.error_code.0 == known_error_code_value(crate::h2::connection_error_code(*err)),
            r.additional_debug_data == debug,
    {
        GoAway {
            last_stream_id: self.last_stream_id,
            error_code: ErrorCode::from_known(err.as_known_error_code()),
            additional_debug_data: debug,
        }
    }
}

/// The highest stream id the peer opened never goes down, whatever frame
/// arrives.
pub proof fn law_last_stream_id_never_decreases(v: ConnView, f: Frame, payload: Seq<u8>)
    ensures
        frame_step(v, f, payload) matches Ok((v2, _)) ==> v2.last_stream_id.0
            >= v.last_stream_id.0,
{
}

/// A stream id that is closed and not above the highest one the peer opened
/// can never be opened again: HEADERS on it fail the connection.
pub proof fn law_closed_stream_ids_stay_closed(v: ConnView, s: u32, bits: u8, payload: Seq<u8>)
    requires
        !v.streams.contains_key(s),
        s <= v.last_stream_id.0,
    ensures
        headers_step(v, s, bits, payload) is Err,
{
}

/// A new stream beyond what we allow the peer is refused with
/// RST_STREAM(REFUSED_STREAM); its header block is read and skipped, and
/// nothing else changes.
pub proof fn law_refused_stream_is_reset(v: ConnView, s: u32, bits: u8, payload: Seq<u8>)
    requires
        !v.streams.contains_key(s),
        s % 2 == 1,
        s > v.last_stream_id.0,
        at_stream_limit(v),
        !has_flag(bits, 0x20),
    ensures
        headers_step(v, s, bits, payload) == Ok::<(ConnView, Seq<H2Action>), H2ConnectionError>(
            (
                v,
                seq![
                    H2Action::SendRst {
                        stream_id: StreamId(s),
                        error: H2StreamError::RefusedStream,
                    },
                    read_headers_action(s, HeadersOrTrailers::Headers, ReadHeadersMode::Skip, bits),
                ],
            ),
        ),
{
}

/// An accepted SETTINGS frame is acknowledged, installs the settings it
/// carries over the peer's previous ones, and moves every stream's sending
/// window by exactly the change of the initial window size.
pub proof fn law_settings_acknowledged_and_windows_follow(v: ConnView, bits: u8, payload: Seq<u8>)
    requires
        crate::h2::conn_view_wf(v),
        !has_flag(bits, 0x01),
    ensures
        settings_step(v, 0, bits, payload) matches Ok((v2, acts)) ==> {
            &&& acts.contains(H2Action::AckSettings)
            &&& settings_apply_all(v.peer_settings, settings_entries(payload)) == Ok::<
                Settings,
                crate::frame::SettingsError,
            >(v2.peer_settings)
            &&& v2.streams.dom() == v.streams.dom()
            &&& forall|id: u32|
                #![trigger v2.streams[id]]
                v.streams.contains_key(id) && v.streams[id].outgoing_capacity_spec() is Some
                    ==> v2.streams[id].outgoing_capacity_spec()->Some_0 - v.streams[
                    id].outgoing_capacity_spec()->Some_0 == v2.peer_settings.initial_window_size
                    - v.peer_settings.initial_window_size
        },
{
    if settings_step(v, 0, bits, payload) is Ok {
        let (v2, acts) = settings_step(v, 0, bits, payload)->Ok_0;
        assert(acts[1] == H2Action::AckSettings);
        assert(v2.streams.dom() =~= v.streams.dom());
        let delta = v2.peer_settings.initial_window_size - v.peer_settings.initial_window_size;
        assert forall|id: u32|
            v.streams.contains_key(id) && v.streams[id].outgoing_capacity_spec() is Some implies #[trigger] v2.streams[id].outgoing_capacity_spec()->Some_0
            - v.streams[id].outgoing_capacity_spec()->Some_0 == delta by {
            assert(crate::h2::stream_windows_ok(v.streams[id], v.peer_settings.initial_window_size));
            assert(!overflows(v, delta, id));
        }
    }
}

/// DATA takes exactly its payload length out of the stream's receiving
/// window, and a DATA frame larger than that window fails the connection.
pub proof fn law_data_consumes_receiving_window(v: ConnView, s: u32, n: int)
    requires
        0 <= n,
        v.streams.contains_key(s),
        v.streams[s] is Open,
    ensures
        v.streams[s].incoming_spec()->Some_0.capacity < n ==> data_step(v, s, false, n) is Err,
        v.streams[s].incoming_spec()->Some_0.capacity >= n ==> (data_step(v, s, false, n) matches Ok(
            (v2, _),
        ) && v2.streams[s].incoming_spec()->Some_0.capacity == v.streams[s].incoming_spec()->Some_0.capacity
            - n),
{
}


/// The stream state changes that reading a frame may cause (RFC 9113,
/// 5.1): an open stream may become half closed (remote); otherwise a
/// stream keeps its state until it is closed.
pub open spec fn recv_transition(a: StreamState, b: StreamState) -> bool {
    match a {
        StreamState::Open { .. } => b is Open || b is HalfClosedRemote,
        StreamState::HalfClosedRemote { .. } => b is HalfClosedRemote,
        StreamState::HalfClosedLocal { .. } => b is HalfClosedLocal,
    }
}

/// Reading a frame never opens a stream (only a complete header block does),
/// and moves each remaining stream only along the stream state machine.
pub proof fn law_frames_follow_stream_states(v: ConnView, f: Frame, payload: Seq<u8>)
    ensures
        frame_step(v, f, payload) matches Ok((v2, _)) ==> forall|id: u32|
            #[trigger] v2.streams.contains_key(id) ==> v.streams.contains_key(id)
                && recv_transition(v.streams[id], v2.streams[id]),
{
    if frame_step(v, f, payload) is Ok {
        let v2 = frame_step(v, f, payload)->Ok_0.0;
        assert forall|id: u32| #[trigger] v2.streams.contains_key(id) implies v.streams.contains_key(id)
            && recv_transition(v.streams[id], v2.streams[id]) by {
            match f.frame_type {
                FrameType::Settings(fl) => {
                    if v2.streams =~= v.streams {
                    } else {
                        let ns = settings_apply_all(v.peer_settings, settings_entries(payload))->Ok_0;
                        let delta = ns.initial_window_size - v.peer_settings.initial_window_size;
                        assert(v2.streams == shifted_streams(v.streams, delta));
                    }
                },
                _ => {},
            }
        }
    }
}

/// The payload of the RST_STREAM that answers a stream error: the error's
/// code.
/// The answer to a PING: a PING frame on the connection stream with the ACK
/// flag, echoing the 8 payload bytes.
pub fn pong_bytes(payload: &[u8]) -> (r: Vec<u8>)
    requires
        payload@.len() == 8,
    ensures
        r@ == seq![0x00u8, 0x00, 0x08, 0x06, 0x01, 0x00, 0x00, 0x00, 0x00] + payload@,
{
    let mut out: Vec<u8> = vec![0x00, 0x00, 0x08, 0x06, 0x01, 0x00, 0x00, 0x00, 0x00];
    let mut k: usize = 0;
    let ghost head = out@;
    while k < payload.len()
        invariant
            k <= payload@.len(),
            out@ == head + payload@.take(k as int),
        decreases payload@.len() - k,
    {
        out.push(payload[k]);
        k = k + 1;
        assert(out@ =~= head + payload@.take(k as int));
    }
    assert(payload@.take(k as int) =~= payload@);
    assert(head =~= seq![0x00u8, 0x00, 0x08, 0x06, 0x01, 0x00, 0x00, 0x00, 0x00]);
    out
}

pub fn rst_payload(e: H2StreamError) -> (r: RstStream)
    ensures
        r.error_code.0 == known_error_code_value(crate::h2::stream_error_code(e)),
{
    RstStream { error_code: ErrorCode::from_known(e.as_known_error_code()) }
}

/// An accepted SETTINGS frame (not an acknowledgement) installs the settings
/// that its entries give when applied in order, asks the encoder for exactly
/// the header table size of those settings, and is acknowledged.
pub proof fn law_settings_frame_installs_what_it_carries(v: ConnView, bits: u8, payload: Seq<u8>)
    requires
        !has_flag(bits, 0x01),
    ensures
        settings_step(v, 0, bits, payload) matches Ok((v2, acts)) ==> {
            &&& settings_apply_all(v.peer_settings, settings_entries(payload)) == Ok::<
                Settings,
                SettingsError,
            >(v2.peer_settings)
            &&& acts.contains(
                H2Action::SetEncoderMaxTableSize { size: v2.peer_settings.header_table_size },
            )
            &&& forall|a: H2Action| #[trigger]
                acts.contains(a) && a is SetEncoderMaxTableSize ==> a
                    == H2Action::SetEncoderMaxTableSize {
                    size: v2.peer_settings.header_table_size,
                }
            &&& acts.contains(H2Action::AckSettings)
        },
{
    if let Ok((v2, acts)) = settings_step(v, 0, bits, payload) {
        assert(acts[0] == H2Action::SetEncoderMaxTableSize {
            size: v2.peer_settings.header_table_size,
        });
        assert(acts[1] == H2Action::AckSettings);
    }
}

/// A SETTINGS frame whose one entry is the header table size `x` makes the
/// peer's table size `x`, leaves its other settings as they were, and asks
/// the encoder for a table of `x` bytes.
pub proof fn law_settings_frame_table_size(v: ConnView, bits: u8, payload: Seq<u8>, x: u32)
    requires
        !has_flag(bits, 0x01),
        payload.len() % 6 == 0,
        settings_entries(payload) == seq![(Setting::HeaderTableSize, x)],
    ensures
        settings_step(v, 0, bits, payload) matches Ok((v2, acts)) ==> v2.peer_settings
            == (Settings { header_table_size: x, ..v.peer_settings }) && acts.contains(
            H2Action::SetEncoderMaxTableSize { size: x },
        ),
{
    let e = settings_entries(payload);
    assert(e.drop_first() =~= Seq::<(Setting, u32)>::empty());
    assert(settings_apply(v.peer_settings, Setting::HeaderTableSize, x) == Ok::<
        Settings,
        SettingsError,
    >(Settings { header_table_size: x, ..v.peer_settings }));
    assert(settings_apply_all(
        Settings { header_table_size: x, ..v.peer_settings },
        e.drop_first(),
    ) == Ok::<Settings, SettingsError>(Settings { header_table_size: x, ..v.peer_settings }));
    assert(settings_apply_all(v.peer_settings, e) == Ok::<Settings, SettingsError>(
        Settings { header_table_size: x, ..v.peer_settings },
    ));
    law_settings_frame_installs_what_it_carries(v, bits, payload);
}

/// DATA that ends the stream ends the peer's side of it: nothing can be
/// received on the stream afterwards; a stream whose own side was already
/// done is closed and forgotten, and an open one keeps only its sending side.
/// The body learns of the data and of its end.
pub proof fn law_end_stream_ends_the_receiving_side(v: ConnView, s: u32, n: int)
    ensures
        data_step(v, s, true, n) matches Ok((v2, _)) ==> !(v2.streams.contains_key(s) && (
        v2.streams[s] is Open || v2.streams[s] is HalfClosedLocal)),
        v.streams.contains_key(s) && v.streams[s] is HalfClosedLocal ==> (data_step(
            v,
            s,
            true,
            n,
        ) matches Ok((v2, acts)) ==> !v2.streams.contains_key(s) && !v2.pending.contains(s)
            && acts == seq![H2Action::DeliverData { stream_id: StreamId(s), end_stream: true }]),
        v.streams.contains_key(s) && v.streams[s] is Open ==> (data_step(v, s, true, n) matches Ok(
            (v2, acts),
        ) ==> v2.streams.contains_key(s) && v2.streams[s] is HalfClosedRemote && acts == seq![
            H2Action::DeliverData { stream_id: StreamId(s), end_stream: true },
        ]),
{
}

/// RST_STREAM of the right size on a known stream closes it; when the peer
/// could still send on it (the stream is open, or only our side is done),
/// the request body is told of the reset, and otherwise nothing is sent.
pub proof fn law_reset_reaches_the_request_body(v: ConnView, s: u32)
    requires
        v.streams.contains_key(s),
    ensures
        v.streams[s] is Open || v.streams[s] is HalfClosedLocal ==> (rst_stream_step(v, s, 4) matches Ok(
            (v2, acts),
        ) && !v2.streams.contains_key(s) && acts == seq![
            H2Action::DeliverReset { stream_id: StreamId(s) },
        ]),
        v.streams[s] is HalfClosedRemote ==> (rst_stream_step(v, s, 4) matches Ok((v2, acts))
            && !v2.streams.contains_key(s) && acts.len() == 0),
{
}

/// DATA that does not end the stream, on a stream the peer may send on,
/// takes its `n` bytes from the stream's receiving window, and is refused
/// when the window is smaller than that; the stream stays as it was
/// otherwise, and the body receives the data.
pub proof fn law_data_takes_from_the_stream_window(v: ConnView, s: u32, n: int)
    requires
        v.streams.contains_key(s),
        v.streams[s] is Open || v.streams[s] is HalfClosedLocal,
        0 <= n,
    ensures
        ({
            let cap = match v.streams[s] {
                StreamState::Open { incoming, .. } => incoming.capacity as int,
                StreamState::HalfClosedLocal { incoming } => incoming.capacity as int,
                _ => 0,
            };
            &&& cap < n ==> data_step(v, s, false, n) is Err
            &&& cap >= n ==> (data_step(v, s, false, n) matches Ok((v2, acts)) && acts == seq![
                H2Action::DeliverData { stream_id: StreamId(s), end_stream: false },
            ] && v2.streams.contains_key(s) && match (v.streams[s], v2.streams[s]) {
                (StreamState::Open { outgoing, .. }, StreamState::Open { incoming: i2, outgoing: o2 }) =>
                    i2.capacity == cap - n && o2 == outgoing,
                (StreamState::HalfClosedLocal { .. }, StreamState::HalfClosedLocal { incoming: i2 }) =>
                    i2.capacity == cap - n,
                _ => false,
            } && v2.streams.remove(s) == v.streams.remove(s))
        }),
{
    let cap = match v.streams[s] {
        StreamState::Open { incoming, .. } => incoming.capacity as int,
        StreamState::HalfClosedLocal { incoming } => incoming.capacity as int,
        _ => 0,
    };
    if let Ok((v2, acts)) = data_step(v, s, false, n) {
        assert(v2.streams.remove(s) =~= v.streams.remove(s));
    }
}

} // verus!
