use loona::frame::{BitFlags, Frame, FrameType, Setting, SettingPairs, StreamId};
use loona::h2::{ConnState, H2Action, HeadersOrTrailers, ReadHeadersMode, ServerConf, StreamState};
use loona::hpack::{response_header_list, HpackCodec};
use loona::send::cut;

fn headers_frame(s: u32, bits: u8) -> Frame {
    Frame::new(FrameType::Headers(BitFlags { bits }), StreamId(s))
}

fn request_block(enc: &mut fluke_hpack::Encoder) -> Vec<u8> {
    let headers: Vec<(&[u8], &[u8])> = vec![
        (b":method", b"GET"),
        (b":scheme", b"http"),
        (b":path", b"/"),
        (b":authority", b"example.com"),
    ];
    enc.encode(headers)
}

fn open(
    st: &mut ConnState,
    codec: &mut HpackCodec,
    enc: &mut fluke_hpack::Encoder,
    s: u32,
    end_stream: bool,
) {
    let bits = if end_stream { 0x05 } else { 0x04 };
    st.process_frame(headers_frame(s, bits), &[]).unwrap();
    st.finish_header_block(
        codec,
        s,
        HeadersOrTrailers::Headers,
        ReadHeadersMode::Process,
        end_stream,
        &vec![request_block(enc)],
    )
    .unwrap();
}

fn text_headers() -> Vec<(Vec<u8>, Vec<u8>)> {
    vec![
        (b"content-type".to_vec(), b"text/plain".to_vec()),
        (b"transfer-encoding".to_vec(), b"chunked".to_vec()),
    ]
}

#[test]
fn response_head_and_body_are_sent() {
    let mut st = ConnState::new(ServerConf::default_conf());
    let mut codec = HpackCodec::new();
    let mut enc = fluke_hpack::Encoder::new();
    open(&mut st, &mut codec, &mut enc, 1, true);

    let acts = st.respond(&mut codec, 1, 200, &text_headers());
    assert_eq!(acts, vec![H2Action::NotifySendData]);
    assert_eq!(st.streams_with_pending_data, vec![1]);

    let frames = st.send_data_maybe();
    assert_eq!(frames.len(), 1);
    let (f, payload) = &frames[0];
    assert_eq!(f.frame_type, FrameType::Headers(BitFlags { bits: 0x04 }));
    assert_eq!(f.stream_id, StreamId(1));
    assert_eq!(f.len as usize, payload.len());
    let mut dec = fluke_hpack::Decoder::new();
    let decoded = dec.decode(payload).unwrap();
    assert_eq!(
        decoded,
        vec![
            (b":status".to_vec(), b"200".to_vec()),
            (b"content-type".to_vec(), b"text/plain".to_vec()),
        ]
    );

    assert_eq!(st.on_body_chunk(1, b"hello".to_vec()), vec![H2Action::NotifySendData]);
    assert_eq!(st.on_body_end(1), vec![]);
    let frames = st.send_data_maybe();
    assert_eq!(frames.len(), 1);
    assert_eq!(frames[0].0.frame_type, FrameType::Data(BitFlags { bits: 0x01 }));
    assert_eq!(frames[0].1, b"hello".to_vec());
    assert_eq!(st.outgoing_capacity, 65530);
    // the peer had closed its side already: the stream is closed now
    assert!(!st.has_stream(StreamId(1)));
    assert!(st.streams_with_pending_data.is_empty());
}

#[test]
fn finished_body_closes_our_side() {
    let mut st = ConnState::new(ServerConf::default_conf());
    let mut codec = HpackCodec::new();
    let mut enc = fluke_hpack::Encoder::new();
    open(&mut st, &mut codec, &mut enc, 1, false);
    st.respond(&mut codec, 1, 204, &vec![]);
    assert_eq!(st.on_body_end(1), vec![H2Action::NotifySendData]);
    let frames = st.send_data_maybe();
    assert_eq!(frames.len(), 2);
    // an empty DATA frame carries END_STREAM alone
    assert_eq!(frames[1].0.frame_type, FrameType::Data(BitFlags { bits: 0x01 }));
    assert_eq!(frames[1].0.len, 0);
    assert!(matches!(st.streams.get(&1).unwrap(), StreamState::HalfClosedLocal { .. }));
}

#[test]
fn body_waits_for_the_window() {
    let mut st = ConnState::new(ServerConf::default_conf());
    let mut codec = HpackCodec::new();
    let mut enc = fluke_hpack::Encoder::new();
    let mut payload = Vec::new();
    SettingPairs(&[(Setting::InitialWindowSize, 3)]).write_into(&mut payload);
    st.process_frame(
        Frame::new(FrameType::Settings(BitFlags { bits: 0 }), StreamId(0)).with_len(6),
        &payload,
    )
    .unwrap();
    open(&mut st, &mut codec, &mut enc, 1, true);
    st.respond(&mut codec, 1, 200, &vec![]);
    st.on_body_chunk(1, b"hello".to_vec());
    st.on_body_end(1);
    let frames = st.send_data_maybe();
    assert_eq!(frames.len(), 2);
    assert_eq!(frames[1].0.frame_type, FrameType::Data(BitFlags { bits: 0 }));
    assert_eq!(frames[1].1, b"hel".to_vec());
    assert_eq!(st.streams.get(&1).unwrap().outgoing_capacity(), Some(0));
    // nothing more until the window grows
    assert!(st.send_data_maybe().is_empty());
    let acts = st
        .process_frame(
            Frame::new(FrameType::WindowUpdate, StreamId(1)).with_len(4),
            &[0, 0, 0, 10],
        )
        .unwrap();
    assert_eq!(acts, vec![H2Action::NotifySendData]);
    let frames = st.send_data_maybe();
    assert_eq!(frames.len(), 1);
    assert_eq!(frames[0].0.frame_type, FrameType::Data(BitFlags { bits: 1 }));
    assert_eq!(frames[0].1, b"lo".to_vec());
    assert!(!st.has_stream(StreamId(1)));
}

#[test]
fn body_is_cut_at_the_max_frame_size() {
    let mut st = ConnState::new(ServerConf::default_conf());
    let mut codec = HpackCodec::new();
    let mut enc = fluke_hpack::Encoder::new();
    open(&mut st, &mut codec, &mut enc, 1, true);
    st.respond(&mut codec, 1, 200, &vec![]);
    st.on_body_chunk(1, vec![1u8; 20000]);
    st.on_body_chunk(1, vec![2u8; 20000]);
    st.on_body_end(1);
    // the connection window allows 65535 bytes; the stream's too
    let frames = st.send_data_maybe();
    let data: Vec<_> = frames.iter().filter(|(f, _)| matches!(f.frame_type, FrameType::Data(_))).collect();
    assert_eq!(data.len(), 3);
    assert_eq!(data[0].1.len(), 16384);
    assert_eq!(data[1].1.len(), 16384);
    assert_eq!(data[2].1.len(), 40000 - 2 * 16384);
    assert_eq!(data[0].0.frame_type, FrameType::Data(BitFlags { bits: 0 }));
    assert_eq!(data[2].0.frame_type, FrameType::Data(BitFlags { bits: 1 }));
    assert_eq!(data[1].1[20000 - 16384 - 1], 1);
    assert_eq!(data[1].1[20000 - 16384], 2);
    assert_eq!(st.outgoing_capacity, 65535 - 40000);
}

#[test]
fn streams_without_headers_stop_being_pending() {
    let mut st = ConnState::new(ServerConf::default_conf());
    let mut codec = HpackCodec::new();
    let mut enc = fluke_hpack::Encoder::new();
    open(&mut st, &mut codec, &mut enc, 1, true);
    st.on_body_chunk(1, b"early".to_vec());
    assert_eq!(st.streams_with_pending_data, vec![1]);
    assert!(st.send_data_maybe().is_empty());
    assert!(st.streams_with_pending_data.is_empty());
}

#[test]
fn events_for_closed_streams_are_ignored() {
    let mut st = ConnState::new(ServerConf::default_conf());
    assert!(st.on_body_chunk(9, b"x".to_vec()).is_empty());
    assert!(st.on_body_end(9).is_empty());
    assert!(st.on_response_headers(9, vec![1]).is_empty());
    assert_eq!(st.num_streams(), 0);
}

#[test]
fn cut_pieces() {
    let b: Vec<u8> = (0..10).collect();
    assert_eq!(cut(&b, 4), vec![vec![0, 1, 2, 3], vec![4, 5, 6, 7], vec![8, 9]]);
    assert_eq!(cut(&vec![], 4), vec![Vec::<u8>::new()]);
}

#[test]
fn response_fields() {
    let l = response_header_list(404, &text_headers());
    assert_eq!(
        l,
        vec![
            (b":status".to_vec(), b"404".to_vec()),
            (b"content-type".to_vec(), b"text/plain".to_vec()),
        ]
    );
}
