use loona::bufpool::BufPool;
use loona::frame::{
    pack_bit_and_u31, parse_bit_and_u31, preface, preface_bytes, BitFlags, ErrorCode, Frame,
    FrameType, GoAway, KnownErrorCode, ParseError, PrioritySpec, RstStream, Setting,
    SettingPairs, Settings, SettingsError, StreamId, WindowUpdate,
};
use loona::roll::RollMut;

#[test]
fn test_pack_and_parse_bit_and_u31() {
    // Test round-tripping through parse_bit_and_u31 and pack_bit_and_u31
    let test_cases = [
        (0, 0),
        (1, 0),
        (0, 1),
        (1, 1),
        (0, 0x7FFF_FFFF),
        (1, 0x7FFF_FFFF),
    ];

    let mut pool = BufPool::initialize_allocator().unwrap();
    let mut roll = RollMut::allocate(&mut pool).unwrap();
    for &(bit, number) in &test_cases {
        let packed = pack_bit_and_u31(bit, number);
        roll.reserve_at_least(&mut pool, 4).unwrap();
        roll.put(&mut pool, &packed[..]).unwrap();
        let all = roll.take_all(&mut pool);
        let (_, (parsed_bit, parsed_number)) = parse_bit_and_u31(all.bytes(&pool)).unwrap();
        all.release(&mut pool);
        assert_eq!(bit, parsed_bit);
        assert_eq!(number, parsed_number);
    }
}

#[test]
fn frame_header_roundtrip() {
    let f = Frame::new(FrameType::Headers(BitFlags { bits: 0x05 }), StreamId(7)).with_len(300);
    let mut out = Vec::new();
    f.write_into(&mut out);
    assert_eq!(out, vec![0, 1, 44, 1, 0x05, 0, 0, 0, 7]);
    let (n, g) = Frame::parse(&out).unwrap();
    assert_eq!(n, 9);
    assert_eq!(g, f);
    assert!(g.is_end_headers());
    assert!(g.is_end_stream());
}

#[test]
fn frame_parse_incomplete() {
    assert_eq!(Frame::parse(&[0, 0]), Err(ParseError::Incomplete(1)));
    assert_eq!(Frame::parse(&[0, 0, 4, 1, 0, 0]), Err(ParseError::Incomplete(3)));
}

#[test]
fn preface_parses() {
    let p = preface_bytes();
    assert_eq!(p, b"PRI * HTTP/2.0\r\n\r\nSM\r\n\r\n".to_vec());
    assert_eq!(preface(&p), Ok((24, ())));
    assert_eq!(preface(b"PRI * HTTP/1.1"), Err(ParseError::Error));
    assert_eq!(preface(b"PRI"), Err(ParseError::Incomplete(21)));
}

#[test]
fn settings_apply_and_errors() {
    let mut s = Settings::default_settings();
    assert_eq!(s.initial_window_size, 65535);
    assert_eq!(s.apply(Setting::InitialWindowSize, 1000), Ok(()));
    assert_eq!(s.initial_window_size, 1000);
    assert_eq!(
        s.apply(Setting::EnablePush, 2),
        Err(SettingsError::InvalidEnablePushValue { actual: 2 })
    );
    assert_eq!(
        s.apply(Setting::InitialWindowSize, 0x8000_0000),
        Err(SettingsError::InitialWindowSizeTooLarge { actual: 0x8000_0000 })
    );
    assert_eq!(
        s.apply(Setting::MaxFrameSize, 100),
        Err(SettingsError::SettingsMaxFrameSizeInvalid { actual: 100 })
    );
    assert_eq!(s.initial_window_size, 1000);
}

#[test]
fn settings_payload_roundtrip() {
    let pairs = [(Setting::MaxConcurrentStreams, 10u32), (Setting::InitialWindowSize, 20u32)];
    let mut out = Vec::new();
    SettingPairs(&pairs).write_into(&mut out);
    assert_eq!(out, vec![0, 3, 0, 0, 0, 10, 0, 4, 0, 0, 0, 20]);
    let parsed = Settings::parse(&out);
    assert_eq!(parsed, pairs.to_vec());
    let s = Settings::default_settings().apply_payload(&out).unwrap();
    assert_eq!(s.max_concurrent_streams, Some(10));
    assert_eq!(s.initial_window_size, 20);
}

#[test]
fn payload_types_roundtrip() {
    let p = PrioritySpec { exclusive: true, stream_dependency: StreamId(3), weight: 9 };
    let mut out = Vec::new();
    p.write_into(&mut out);
    assert_eq!(out, vec![0x80, 0, 0, 3, 9]);
    assert_eq!(PrioritySpec::parse(&out), Ok((5, p)));

    let r = RstStream { error_code: ErrorCode(8) };
    let mut out = Vec::new();
    r.write_into(&mut out);
    assert_eq!(RstStream::parse(&out), Ok((4, r)));

    let w = WindowUpdate { reserved: 0, increment: 1000 };
    let mut out = Vec::new();
    w.write_into(&mut out);
    assert_eq!(WindowUpdate::parse(&out), Ok((4, w)));

    let g = GoAway {
        last_stream_id: StreamId(5),
        error_code: ErrorCode(1),
        additional_debug_data: b"bye".to_vec(),
    };
    let mut out = Vec::new();
    g.write_into(&mut out);
    assert_eq!(out, vec![0, 0, 0, 5, 0, 0, 0, 1, b'b', b'y', b'e']);
    let (_, g2) = GoAway::parse(&out).unwrap();
    assert_eq!(g2.last_stream_id, StreamId(5));
    assert_eq!(g2.additional_debug_data, b"bye".to_vec());
}

#[test]
fn known_error_codes() {
    assert_eq!(KnownErrorCode::from_repr(7), Some(KnownErrorCode::RefusedStream));
    assert_eq!(KnownErrorCode::from_repr(99), None);
    assert_eq!(KnownErrorCode::FlowControlError.repr(), 3);
    assert_eq!(ErrorCode::from_known(KnownErrorCode::StreamClosed).as_repr(), 5);
}
