use loona::frame::{BitFlags, Frame, FrameType, KnownErrorCode, Setting, SettingPairs, StreamId};
use loona::h2::{
    ConnState, H2Action, H2ConnectionError, H2StreamError, HeadersOrTrailers, ReadHeadersMode,
    ServerConf, StreamState,
};
use loona::headers::continuation_step;
use loona::hpack::{compression_outcome, HpackCodec};
use loona::process::HeaderBlockOutcome;

fn conn() -> ConnState {
    ConnState::new(ServerConf::default_conf())
}

fn frame(ft: FrameType, s: u32, len: u32) -> Frame {
    Frame::new(ft, StreamId(s)).with_len(len)
}

fn headers_frame(s: u32, bits: u8) -> Frame {
    frame(FrameType::Headers(BitFlags { bits }), s, 0)
}

fn request_block() -> Vec<u8> {
    let mut enc = fluke_hpack::Encoder::new();
    let headers: Vec<(&[u8], &[u8])> = vec![
        (b":method", b"GET"),
        (b":scheme", b"https"),
        (b":path", b"/hello"),
        (b"host", b"example.com"),
        (b"accept", b"*/*"),
    ];
    enc.encode(headers)
}

/// Opens stream `s` through a HEADERS frame and its decoded header block.
fn open_stream(st: &mut ConnState, codec: &mut HpackCodec, s: u32, end_stream: bool) {
    let bits = if end_stream { 0x05 } else { 0x04 };
    let acts = st.process_frame(headers_frame(s, bits), &[]).unwrap();
    assert_eq!(
        acts,
        vec![H2Action::ReadHeaders {
            stream_id: StreamId(s),
            kind: HeadersOrTrailers::Headers,
            mode: ReadHeadersMode::Process,
            end_stream,
            end_headers: true,
            fragment_start: 0,
        }]
    );
    let out = st
        .finish_header_block(
            codec,
            s,
            HeadersOrTrailers::Headers,
            ReadHeadersMode::Process,
            end_stream,
            &vec![request_block()],
        )
        .unwrap();
    match out {
        HeaderBlockOutcome::Request(req) => {
            assert_eq!(req.method, b"GET".to_vec());
            assert_eq!(req.scheme, b"https".to_vec());
            assert_eq!(req.path, b"/hello".to_vec());
            assert_eq!(req.authority, Some(b"example.com".to_vec()));
            assert_eq!(req.headers.len(), 2);
        }
        _ => panic!("expected a request"),
    }
}

#[test]
fn new_connection_state() {
    let st = conn();
    assert_eq!(st.num_streams(), 0);
    assert_eq!(st.last_stream_id, StreamId(0));
    assert_eq!(st.outgoing_capacity, 65535);
    assert_eq!(st.self_settings.max_concurrent_streams, Some(32));
}

#[test]
fn headers_open_a_stream() {
    let mut st = conn();
    let mut codec = HpackCodec::new();
    open_stream(&mut st, &mut codec, 1, false);
    assert_eq!(st.last_stream_id, StreamId(1));
    assert!(st.has_stream(StreamId(1)));
    match st.streams.get(&1).unwrap() {
        StreamState::Open { incoming, outgoing } => {
            assert_eq!(incoming.capacity, 65535);
            assert_eq!(outgoing.capacity, 65535);
        }
        _ => panic!("stream should be open"),
    }
}

#[test]
fn headers_stream_id_rules() {
    let mut st = conn();
    let mut codec = HpackCodec::new();
    assert_eq!(
        st.process_frame(headers_frame(2, 0x04), &[]),
        Err(H2ConnectionError::ClientSidShouldBeOdd)
    );
    open_stream(&mut st, &mut codec, 5, true);
    assert_eq!(
        st.process_frame(headers_frame(3, 0x04), &[]),
        Err(H2ConnectionError::ClientSidShouldBeNumericallyIncreasing {
            stream_id: StreamId(3),
            last_stream_id: StreamId(5),
        })
    );
    // stream 5 is half closed (remote): HEADERS on it fail
    assert_eq!(
        st.process_frame(headers_frame(5, 0x04), &[]),
        Err(H2ConnectionError::StreamClosed { stream_id: StreamId(5) })
    );
}

#[test]
fn headers_with_priority_on_itself() {
    let mut st = conn();
    let payload = [0, 0, 0, 1, 16];
    assert_eq!(
        st.process_frame(headers_frame(1, 0x24), &payload),
        Err(H2ConnectionError::HeadersInvalidPriority { stream_id: StreamId(1) })
    );
    let payload = [0, 0, 0, 3, 16];
    let acts = st.process_frame(headers_frame(1, 0x24), &payload).unwrap();
    assert_eq!(
        acts,
        vec![H2Action::ReadHeaders {
            stream_id: StreamId(1),
            kind: HeadersOrTrailers::Headers,
            mode: ReadHeadersMode::Process,
            end_stream: false,
            end_headers: true,
            fragment_start: 5,
        }]
    );
    assert!(matches!(
        st.process_frame(headers_frame(3, 0x24), &[0, 0]),
        Err(H2ConnectionError::Internal(_))
    ));
}

#[test]
fn refused_stream_is_reset() {
    let mut st = ConnState::new(ServerConf { max_streams: 0 });
    let acts = st.process_frame(headers_frame(1, 0x04), &[]).unwrap();
    assert_eq!(
        acts,
        vec![
            H2Action::SendRst { stream_id: StreamId(1), error: H2StreamError::RefusedStream },
            H2Action::ReadHeaders {
                stream_id: StreamId(1),
                kind: HeadersOrTrailers::Headers,
                mode: ReadHeadersMode::Skip,
                end_stream: false,
                end_headers: true,
                fragment_start: 0,
            },
        ]
    );
    assert_eq!(st.last_stream_id, StreamId(0));
    assert_eq!(st.num_streams(), 0);
    let mut codec = HpackCodec::new();
    let out = st
        .finish_header_block(
            &mut codec,
            1,
            HeadersOrTrailers::Headers,
            ReadHeadersMode::Skip,
            false,
            &vec![vec![0xff, 0xff]],
        )
        .unwrap();
    assert!(matches!(out, HeaderBlockOutcome::Skipped));
}

#[test]
fn data_consumes_the_window() {
    let mut st = conn();
    let mut codec = HpackCodec::new();
    open_stream(&mut st, &mut codec, 1, false);
    let data = vec![7u8; 1000];
    let acts = st
        .process_frame(frame(FrameType::Data(BitFlags { bits: 0 }), 1, 1000), &data)
        .unwrap();
    assert_eq!(acts, vec![H2Action::DeliverData { stream_id: StreamId(1), end_stream: false }]);
    assert_eq!(st.streams.get(&1).unwrap().incoming_capacity(), Some(64535));

    // more than the window allows
    let big = vec![0u8; 70000];
    assert_eq!(
        st.process_frame(frame(FrameType::Data(BitFlags { bits: 0 }), 1, 70000), &big),
        Err(H2ConnectionError::WindowUnderflow { stream_id: StreamId(1) })
    );
    assert_eq!(st.streams.get(&1).unwrap().incoming_capacity(), Some(64535));

    // END_STREAM: the peer's side closes
    let acts = st
        .process_frame(frame(FrameType::Data(BitFlags { bits: 1 }), 1, 0), &[])
        .unwrap();
    assert_eq!(acts, vec![H2Action::DeliverData { stream_id: StreamId(1), end_stream: true }]);
    assert!(matches!(st.streams.get(&1).unwrap(), StreamState::HalfClosedRemote { .. }));

    // data after that resets the stream
    let acts = st
        .process_frame(frame(FrameType::Data(BitFlags { bits: 0 }), 1, 0), &[])
        .unwrap();
    assert_eq!(
        acts,
        vec![H2Action::SendRst { stream_id: StreamId(1), error: H2StreamError::StreamClosed }]
    );
    assert!(!st.has_stream(StreamId(1)));

    // data on a closed stream fails the connection
    assert_eq!(
        st.process_frame(frame(FrameType::Data(BitFlags { bits: 0 }), 1, 0), &[]),
        Err(H2ConnectionError::StreamClosed { stream_id: StreamId(1) })
    );
}

#[test]
fn ping_is_answered() {
    let mut st = conn();
    let payload = [1u8, 2, 3, 4, 5, 6, 7, 8];
    assert_eq!(
        st.process_frame(frame(FrameType::Ping(BitFlags { bits: 0 }), 0, 8), &payload),
        Ok(vec![H2Action::SendPong])
    );
    assert_eq!(
        st.process_frame(frame(FrameType::Ping(BitFlags { bits: 1 }), 0, 8), &payload),
        Ok(vec![])
    );
    assert_eq!(
        st.process_frame(frame(FrameType::Ping(BitFlags { bits: 0 }), 1, 8), &payload),
        Err(H2ConnectionError::PingFrameWithNonZeroStreamId { stream_id: StreamId(1) })
    );
    assert_eq!(
        st.process_frame(frame(FrameType::Ping(BitFlags { bits: 0 }), 0, 7), &payload[..7]),
        Err(H2ConnectionError::PingFrameInvalidLength { len: 7 })
    );
}

fn settings_payload(pairs: &[(Setting, u32)]) -> Vec<u8> {
    let mut out = Vec::new();
    SettingPairs(pairs).write_into(&mut out);
    out
}

#[test]
fn settings_move_the_windows() {
    let mut st = conn();
    let mut codec = HpackCodec::new();
    open_stream(&mut st, &mut codec, 1, false);
    let payload = settings_payload(&[(Setting::InitialWindowSize, 65535 + 100)]);
    let acts = st
        .process_frame(frame(FrameType::Settings(BitFlags { bits: 0 }), 0, 6), &payload)
        .unwrap();
    assert_eq!(
        acts,
        vec![H2Action::SetEncoderMaxTableSize { size: 4096 }, H2Action::AckSettings]
    );
    assert_eq!(st.peer_settings.initial_window_size, 65635);
    assert_eq!(st.streams.get(&1).unwrap().outgoing_capacity(), Some(65635));

    // shrinking empties the window; growing it back wakes the stream
    let payload = settings_payload(&[(Setting::InitialWindowSize, 0)]);
    st.process_frame(frame(FrameType::Settings(BitFlags { bits: 0 }), 0, 6), &payload)
        .unwrap();
    assert_eq!(st.streams.get(&1).unwrap().outgoing_capacity(), Some(0));
    let payload = settings_payload(&[(Setting::InitialWindowSize, 200)]);
    let acts = st
        .process_frame(frame(FrameType::Settings(BitFlags { bits: 0 }), 0, 6), &payload)
        .unwrap();
    assert_eq!(
        acts,
        vec![
            H2Action::SetEncoderMaxTableSize { size: 4096 },
            H2Action::AckSettings,
            H2Action::NotifySendData
        ]
    );
    assert_eq!(st.streams.get(&1).unwrap().outgoing_capacity(), Some(200));
}

#[test]
fn settings_errors() {
    let mut st = conn();
    assert_eq!(
        st.process_frame(frame(FrameType::Settings(BitFlags { bits: 0 }), 1, 0), &[]),
        Err(H2ConnectionError::SettingsWithNonZeroStreamId { stream_id: StreamId(1) })
    );
    assert_eq!(
        st.process_frame(frame(FrameType::Settings(BitFlags { bits: 1 }), 0, 6), &[0; 6]),
        Err(H2ConnectionError::SettingsAckWithPayload { len: 6 })
    );
    assert_eq!(
        st.process_frame(frame(FrameType::Settings(BitFlags { bits: 1 }), 0, 0), &[]),
        Ok(vec![])
    );
    assert!(matches!(
        st.process_frame(frame(FrameType::Settings(BitFlags { bits: 0 }), 0, 5), &[0; 5]),
        Err(H2ConnectionError::ReadError(_))
    ));
    let payload = settings_payload(&[(Setting::EnablePush, 7)]);
    assert!(matches!(
        st.process_frame(frame(FrameType::Settings(BitFlags { bits: 0 }), 0, 6), &payload),
        Err(H2ConnectionError::ReadError(_))
    ));
}

#[test]
fn settings_overflowing_a_window() {
    let mut st = conn();
    let mut codec = HpackCodec::new();
    open_stream(&mut st, &mut codec, 1, false);
    open_stream(&mut st, &mut codec, 3, false);
    // stream 3's window grows to the maximum, 2^31-1, and not beyond
    let inc = (0x7fff_ffffu32 - 65535).to_be_bytes();
    st.process_frame(frame(FrameType::WindowUpdate, 3, 4), &inc).unwrap();
    assert_eq!(st.streams.get(&3).unwrap().outgoing_capacity(), Some(0x7fff_ffff));
    let payload = settings_payload(&[(Setting::InitialWindowSize, 70000)]);
    assert_eq!(
        st.process_frame(frame(FrameType::Settings(BitFlags { bits: 0 }), 0, 6), &payload),
        Err(H2ConnectionError::StreamWindowSizeOverflowDueToSettings { stream_id: StreamId(3) })
    );
    assert_eq!(st.peer_settings.initial_window_size, 65535);
}

#[test]
fn window_updates() {
    let mut st = conn();
    let mut codec = HpackCodec::new();
    assert_eq!(
        st.process_frame(frame(FrameType::WindowUpdate, 0, 3), &[0, 0, 1]),
        Err(H2ConnectionError::WindowUpdateInvalidLength { len: 3 })
    );
    assert_eq!(
        st.process_frame(frame(FrameType::WindowUpdate, 0, 4), &[0x80, 0, 0, 0]),
        Err(H2ConnectionError::WindowUpdateZeroIncrement)
    );
    assert_eq!(
        st.process_frame(frame(FrameType::WindowUpdate, 0, 4), &[0, 0, 0, 10]),
        Ok(vec![H2Action::NotifySendData])
    );
    assert_eq!(st.outgoing_capacity, 65545);
    // the window may reach 2^31-1, the maximum, and no further
    let to_max = (0x7fff_ffffu32 - 65545).to_be_bytes();
    assert_eq!(
        st.process_frame(frame(FrameType::WindowUpdate, 0, 4), &to_max),
        Ok(vec![H2Action::NotifySendData])
    );
    assert_eq!(st.outgoing_capacity, 0x7fff_ffff);
    assert_eq!(
        st.process_frame(frame(FrameType::WindowUpdate, 0, 4), &[0, 0, 0, 1]),
        Err(H2ConnectionError::WindowUpdateOverflow)
    );
    assert_eq!(st.outgoing_capacity, 0x7fff_ffff);
    assert_eq!(
        st.process_frame(frame(FrameType::WindowUpdate, 1, 4), &[0, 0, 0, 1]),
        Err(H2ConnectionError::WindowUpdateForUnknownOrClosedStream { stream_id: StreamId(1) })
    );
    open_stream(&mut st, &mut codec, 1, false);
    let to_max = (0x7fff_ffffu32 - 65535).to_be_bytes();
    assert_eq!(
        st.process_frame(frame(FrameType::WindowUpdate, 1, 4), &to_max),
        Ok(vec![])
    );
    assert_eq!(
        st.process_frame(frame(FrameType::WindowUpdate, 1, 4), &[0, 0, 0, 1]),
        Ok(vec![H2Action::SendRst {
            stream_id: StreamId(1),
            error: H2StreamError::WindowUpdateOverflow
        }])
    );
    assert!(!st.has_stream(StreamId(1)));
}

#[test]
fn rst_stream_closes() {
    let mut st = conn();
    let mut codec = HpackCodec::new();
    open_stream(&mut st, &mut codec, 1, false);
    assert_eq!(
        st.process_frame(frame(FrameType::RstStream, 1, 4), &[0, 0, 0, 8]),
        Ok(vec![H2Action::DeliverReset { stream_id: StreamId(1) }])
    );
    assert!(!st.has_stream(StreamId(1)));
    assert_eq!(
        st.process_frame(frame(FrameType::RstStream, 1, 4), &[0, 0, 0, 8]),
        Err(H2ConnectionError::RstStreamForUnknownStream { stream_id: StreamId(1) })
    );
    assert_eq!(
        st.process_frame(frame(FrameType::RstStream, 3, 2), &[0, 8]),
        Ok(vec![H2Action::SendRst {
            stream_id: StreamId(3),
            error: H2StreamError::InvalidRstStreamFrameSize { frame_size: 2 }
        }])
    );
}

#[test]
fn priority_goaway_and_others() {
    let mut st = conn();
    assert_eq!(
        st.process_frame(frame(FrameType::Priority, 1, 5), &[0, 0, 0, 3, 1]),
        Ok(vec![])
    );
    assert_eq!(
        st.process_frame(frame(FrameType::Priority, 1, 5), &[0, 0, 0, 1, 1]),
        Err(H2ConnectionError::HeadersInvalidPriority { stream_id: StreamId(1) })
    );
    assert_eq!(
        st.process_frame(frame(FrameType::Priority, 1, 3), &[0, 0, 0]),
        Ok(vec![H2Action::SendRst {
            stream_id: StreamId(1),
            error: H2StreamError::InvalidPriorityFrameSize { frame_size: 3 }
        }])
    );
    assert_eq!(
        st.process_frame(frame(FrameType::GoAway, 1, 8), &[0; 8]),
        Err(H2ConnectionError::GoAwayWithNonZeroStreamId { stream_id: StreamId(1) })
    );
    assert_eq!(st.process_frame(frame(FrameType::GoAway, 0, 8), &[0; 8]), Ok(vec![]));
    assert!(st.goaway_recv);
    assert_eq!(
        st.process_frame(frame(FrameType::PushPromise, 1, 0), &[]),
        Err(H2ConnectionError::ClientSentPushPromise)
    );
    assert_eq!(
        st.process_frame(frame(FrameType::Continuation(BitFlags { bits: 4 }), 1, 0), &[]),
        Err(H2ConnectionError::UnexpectedContinuationFrame { stream_id: StreamId(1) })
    );
    let unknown = FrameType::decode(loona::frame::EncodedFrameType { ty: 0x42, flags: 0 });
    assert_eq!(st.process_frame(frame(unknown, 1, 0), &[]), Ok(vec![]));
}

#[test]
fn trailers() {
    let mut st = conn();
    let mut codec = HpackCodec::new();
    open_stream(&mut st, &mut codec, 1, false);
    // trailers without END_STREAM reset the stream
    let acts = st.process_frame(headers_frame(1, 0x04), &[]).unwrap();
    assert_eq!(
        acts[0],
        H2Action::SendRst { stream_id: StreamId(1), error: H2StreamError::TrailersNotEndStream }
    );
    assert!(!st.has_stream(StreamId(1)));

    open_stream(&mut st, &mut codec, 3, false);
    let acts = st.process_frame(headers_frame(3, 0x05), &[]).unwrap();
    assert_eq!(
        acts,
        vec![H2Action::ReadHeaders {
            stream_id: StreamId(3),
            kind: HeadersOrTrailers::Trailers,
            mode: ReadHeadersMode::Process,
            end_stream: true,
            end_headers: true,
            fragment_start: 0,
        }]
    );
    let mut enc = fluke_hpack::Encoder::new();
    let block = enc.encode(vec![(&b"x-checksum"[..], &b"abc"[..])]);
    let mut dec = HpackCodec::new();
    let out = st
        .finish_header_block(
            &mut dec,
            3,
            HeadersOrTrailers::Trailers,
            ReadHeadersMode::Process,
            true,
            &vec![block],
        )
        .unwrap();
    match out {
        HeaderBlockOutcome::Trailers(t) => {
            assert_eq!(t, vec![(b"x-checksum".to_vec(), b"abc".to_vec())]);
        }
        _ => panic!("expected trailers"),
    }
    assert!(!st.has_stream(StreamId(3)));
}

#[test]
fn bad_header_block_is_a_compression_error() {
    let mut st = conn();
    let mut codec = HpackCodec::new();
    st.process_frame(headers_frame(1, 0x04), &[]).unwrap();
    let out = st.finish_header_block(
        &mut codec,
        1,
        HeadersOrTrailers::Headers,
        ReadHeadersMode::Process,
        false,
        &vec![vec![0xff, 0xff, 0xff]],
    );
    assert!(matches!(out, Err(H2ConnectionError::CompressionError(_))));
    assert!(!st.has_stream(StreamId(1)));
}

#[test]
fn continuation_frames() {
    let s = StreamId(1);
    assert_eq!(
        continuation_step(s, None),
        Err(H2ConnectionError::ExpectedContinuationFrame { stream_id: s, frame_type: None })
    );
    let other = frame(FrameType::Continuation(BitFlags { bits: 4 }), 3, 0);
    assert_eq!(
        continuation_step(s, Some(other)),
        Err(H2ConnectionError::ExpectedContinuationForStream {
            stream_id: s,
            continuation_stream_id: StreamId(3)
        })
    );
    let data = frame(FrameType::Data(BitFlags { bits: 0 }), 1, 0);
    assert_eq!(
        continuation_step(s, Some(data)),
        Err(H2ConnectionError::ExpectedContinuationFrame {
            stream_id: s,
            frame_type: Some(FrameType::Data(BitFlags { bits: 0 }))
        })
    );
    let more = frame(FrameType::Continuation(BitFlags { bits: 0 }), 1, 0);
    assert_eq!(continuation_step(s, Some(more)), Ok(false));
    let last = frame(FrameType::Continuation(BitFlags { bits: 4 }), 1, 0);
    assert_eq!(continuation_step(s, Some(last)), Ok(true));
}

#[test]
fn error_codes() {
    assert_eq!(
        H2ConnectionError::WindowUpdateOverflow.as_known_error_code(),
        KnownErrorCode::FlowControlError
    );
    assert_eq!(
        H2ConnectionError::PingFrameInvalidLength { len: 3 }.as_known_error_code(),
        KnownErrorCode::FrameSizeError
    );
    assert_eq!(
        H2ConnectionError::CompressionError("x".to_string()).as_known_error_code(),
        KnownErrorCode::CompressionError
    );
    assert_eq!(
        H2ConnectionError::ClientSidShouldBeOdd.as_known_error_code(),
        KnownErrorCode::ProtocolError
    );
    assert_eq!(
        H2StreamError::RefusedStream.as_known_error_code(),
        KnownErrorCode::RefusedStream
    );
    assert_eq!(
        H2StreamError::TrailersNotEndStream.as_known_error_code(),
        KnownErrorCode::ProtocolError
    );
}

#[test]
fn decoding_outcomes() {
    let mut codec = HpackCodec::new();
    let r = codec.decode_block(&vec![Vec::new(), Vec::new()]);
    assert!(matches!(r, Ok(v) if v.is_empty()));
    let r = compression_outcome(Err("bad index".to_string()));
    assert!(matches!(r, Err(H2ConnectionError::CompressionError(m)) if m == "bad index"));
    let pairs = vec![(b"a".to_vec(), b"b".to_vec())];
    assert!(matches!(compression_outcome(Ok(pairs.clone())), Ok(v) if v == pairs));
    // an index beyond both tables is refused
    assert!(matches!(codec.decode_block(&vec![vec![0xff, 0x7f]]), Err(H2ConnectionError::CompressionError(_))));
}

#[test]
fn cut_short_size_updates_are_compression_errors() {
    let mut codec = HpackCodec::new();
    for block in [vec![0x3f], vec![0x3f, 0xff, 0xff, 0xff, 0xff], vec![0x82, 0x3f, 0x80]] {
        match codec.decode_block(&vec![block]) {
            Err(H2ConnectionError::CompressionError(m)) => {
                assert_eq!(m, "dynamic table size update cut short")
            }
            other => panic!("expected a compression error, got {other:?}"),
        }
    }
    // a whole size update within the limit is fine
    assert!(matches!(codec.decode_block(&vec![vec![0x3f, 0xe1, 0x1f, 0x82]]), Ok(v) if v.len() == 1));
}

#[test]
fn pong_echoes_the_payload() {
    let mut want = vec![0x00, 0x00, 0x08, 0x06, 0x01, 0x00, 0x00, 0x00, 0x00];
    want.extend_from_slice(b"12345678");
    assert_eq!(loona::process::pong_bytes(b"12345678"), want);
}
