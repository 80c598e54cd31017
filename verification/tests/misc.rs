use loona::encoder::{BodyChunk, EncoderCall, EncoderState, H2Body, H2Encoder, H2EventPayload, Responder, SinglePieceBody, StreamIncomingItem};
use loona::frame::{BitFlags, Frame, FrameType, IResult, ParseError, StreamId};
use loona::h2::{ConnState, H2ConnectionError, H2StreamError, ServerConf};
use loona::process::rst_payload;
use loona::harness::{decode_listen_line, listen_line, parse_proto, ListenLineError, Proto};
use loona::headers::{request_head, trailers, HeaderBlockError};
use loona::http1::{
    encode_request, encode_response, encode_status_code, means_empty_body, prepare_request_body,
    BodyWriteMode, EncodeError, Method, Version,
};
use loona::request::{into_request, reason_bytes, RequestError};
use loona::headers::RequestHead;
use loona::read::{
    after_read, check_frame_size, read_decision, strip_padding, AfterRead, ReadDecision,
    SemanticError,
};
use loona::types::{
    big_body, check_final_status, check_interim_status, format_decimal, with_content_length,
    BodyErrorReason, ResponseStatusError,
};

fn pairs(v: &[(&str, &str)]) -> Vec<(Vec<u8>, Vec<u8>)> {
    v.iter().map(|(k, v)| (k.as_bytes().to_vec(), v.as_bytes().to_vec())).collect()
}

#[test]
fn request_heads() {
    let h = request_head(&pairs(&[
        (":method", "POST"),
        (":scheme", "https"),
        (":path", "/upload"),
        ("Host", "h.example"),
        (":unknown", "x"),
    ]))
    .unwrap();
    assert_eq!(h.method, b"POST".to_vec());
    assert_eq!(h.authority, Some(b"h.example".to_vec()));
    assert_eq!(h.headers, pairs(&[("Host", "h.example")]));

    let h = request_head(&pairs(&[
        (":authority", "a.example"),
        (":method", "GET"),
        (":scheme", "http"),
        (":path", "/"),
        ("host", "h.example"),
    ]))
    .unwrap();
    assert_eq!(h.authority, Some(b"a.example".to_vec()));

    let e = |v: &[(&str, &str)]| request_head(&pairs(v)).err().unwrap();
    assert_eq!(e(&[(":scheme", "http"), (":path", "/")]), HeaderBlockError::MissingMethod);
    assert_eq!(e(&[(":method", "GET"), (":path", "/")]), HeaderBlockError::MissingScheme);
    assert_eq!(e(&[(":method", "GET"), (":scheme", "http")]), HeaderBlockError::MissingPath);
    assert_eq!(
        e(&[(":method", "GET"), (":method", "PUT")]),
        HeaderBlockError::DuplicatePseudoHeader
    );
    assert_eq!(e(&[(":path", "")]), HeaderBlockError::EmptyPath);
    assert_eq!(e(&[("", "x")]), HeaderBlockError::EmptyName);
    assert_eq!(
        trailers(&pairs(&[(":status", "200")])).err().unwrap(),
        HeaderBlockError::PseudoHeaderInTrailers
    );
}

#[test]
fn http1_heads() {
    let mut out = Vec::new();
    encode_request(
        Method::Get,
        b"/index.html",
        Version::Http11,
        &pairs(&[("host", "example.com")]),
        &mut out,
    )
    .unwrap();
    assert_eq!(out, b"GET /index.html HTTP/1.1\r\nhost: example.com\r\n\r\n".to_vec());

    let mut out = Vec::new();
    encode_response(Version::Http10, 404, &pairs(&[("a", "b"), ("c", "d")]), &mut out)
        .unwrap();
    assert_eq!(out, b"HTTP/1.0 404 Not Found\r\na: b\r\nc: d\r\n\r\n".to_vec());

    let mut out = Vec::new();
    assert_eq!(
        encode_response(Version::Http2, 200, &vec![], &mut out),
        Err(EncodeError::UnsupportedVersion(Version::Http2))
    );
    assert!(out.is_empty());
    assert_eq!(encode_status_code(418), *b"418");
    assert!(means_empty_body(304));
    assert!(!means_empty_body(200));
}

#[test]
fn methods() {
    assert_eq!(Method::from_bytes(b"DELETE"), Method::Delete);
    assert_eq!(Method::from_bytes(b"BREW"), Method::Other(b"BREW".to_vec()));
    assert_eq!(Method::Options.into_chunk(), b"OPTIONS".to_vec());
    assert_eq!(Method::from_bytes(&Method::Trace.into_chunk()), Method::Trace);
}

#[test]
fn reading_decisions() {
    let done: IResult<()> = Ok((9, ()));
    assert_eq!(read_decision(&done, 20, 128), ReadDecision::Done { consumed: 9 });
    let more: IResult<()> = Err(ParseError::Incomplete(3));
    assert_eq!(read_decision(&more, 20, 128), ReadDecision::Read { limit: 108 });
    assert_eq!(read_decision(&more, 128, 128), ReadDecision::LimitReached);
    let bad: IResult<()> = Err(ParseError::Error);
    assert_eq!(read_decision(&bad, 20, 128), ReadDecision::Invalid);
    assert_eq!(after_read(5, 0), AfterRead::Continue);
    assert_eq!(after_read(0, 0), AfterRead::Eof);
    assert_eq!(after_read(0, 3), AfterRead::UnexpectedEof);
    assert_eq!(
        SemanticError::BufferLimitReachedWhileParsing.as_http_response(),
        "HTTP/1.1 431 Request Header Fields Too Large\r\n\r\n"
    );
}

#[test]
fn deframing_checks() {
    let f = Frame::new(FrameType::Data(BitFlags { bits: 0x08 }), StreamId(1)).with_len(20000);
    assert_eq!(
        check_frame_size(&f, 16384),
        Err(H2ConnectionError::FrameTooLarge {
            frame_type: f.frame_type,
            frame_size: 20000,
            max_frame_size: 16384
        })
    );
    assert_eq!(check_frame_size(&f, 20000), Ok(()));
    assert_eq!(strip_padding(&f, &[2, b'a', b'b', 0, 0]), Ok((1, 3)));
    assert_eq!(
        strip_padding(&f, &[]),
        Err(H2ConnectionError::PaddedFrameEmpty { frame_type: f.frame_type })
    );
    assert_eq!(
        strip_padding(&f.with_len(3), &[5, 0, 0]),
        Err(H2ConnectionError::PaddedFrameTooShort {
            frame_type: f.frame_type,
            padding_length: 5,
            frame_size: 3
        })
    );
    let plain = Frame::new(FrameType::Data(BitFlags { bits: 0 }), StreamId(1));
    assert_eq!(strip_padding(&plain, &[1, 2, 3]), Ok((0, 3)));
}

#[test]
fn response_states() {
    assert_eq!(check_interim_status(103), Ok(()));
    assert_eq!(check_interim_status(200), Err(ResponseStatusError::InterimNotInformational));
    assert_eq!(check_final_status(200), Ok(()));
    assert_eq!(check_final_status(100), Err(ResponseStatusError::FinalIsInformational));
    let e = BodyErrorReason::InvalidChunkSize.as_err();
    assert_eq!(e.reason, BodyErrorReason::InvalidChunkSize);
    assert_eq!(e.context, None);
    let e = BodyErrorReason::InvalidChunkTerminator.with_cx("got xx".to_string());
    assert_eq!(e.context, Some("got xx".to_string()));
}

#[test]
fn content_length() {
    assert_eq!(format_decimal(0), b"0".to_vec());
    assert_eq!(format_decimal(1234567890), b"1234567890".to_vec());
    let mut h = pairs(&[("a", "b")]);
    with_content_length(&mut h, Some(42));
    assert_eq!(h, pairs(&[("a", "b"), ("content-length", "42")]));
    with_content_length(&mut h, Some(7));
    assert_eq!(h, pairs(&[("a", "b"), ("content-length", "42")]));
    let mut h = pairs(&[]);
    with_content_length(&mut h, None);
    assert!(h.is_empty());
}

#[test]
fn encoder_events() {
    let mut e = H2Encoder::new(StreamId(3));
    assert_eq!(e.drop_events().len(), 2);
    assert_eq!(e.drop_events()[0].payload, H2EventPayload::Headers { status: 500 });
    let ev = e.write_response(200);
    assert_eq!(ev.payload, H2EventPayload::Headers { status: 200 });
    assert_eq!(ev.stream_id, StreamId(3));
    assert_eq!(e.write_body_chunk().payload, H2EventPayload::BodyChunk);
    assert_eq!(e.drop_events().len(), 1);
    assert_eq!(e.write_body_end().payload, H2EventPayload::BodyEnd);
    assert_eq!(e.state, EncoderState::ResponseDone);
    assert!(e.drop_events().is_empty());
}

#[test]
fn request_bodies() {
    let mut b = H2Body::new(false);
    assert_eq!(b.content_len(), None);
    assert!(matches!(b.next_chunk(Some(StreamIncomingItem::Piece(b"ab".to_vec()))), BodyChunk::Chunk(c) if c == b"ab".to_vec()));
    assert!(!b.eof());
    let t = pairs(&[("x", "y")]);
    assert!(matches!(b.next_chunk(Some(StreamIncomingItem::Trailers(t.clone()))), BodyChunk::Done { trailers: Some(t2) } if t2 == t));
    assert!(b.eof());
    assert!(matches!(b.next_chunk(None), BodyChunk::Done { trailers: None }));
    let b = H2Body::new(true);
    assert_eq!(b.content_len(), Some(0));

    let mut s = SinglePieceBody::new(b"one".to_vec());
    assert_eq!(s.content_len(), Some(3));
    assert!(matches!(s.next_chunk(), BodyChunk::Chunk(c) if c == b"one".to_vec()));
    assert!(s.eof());
    assert!(matches!(s.next_chunk(), BodyChunk::Done { trailers: None }));
}

#[test]
fn harness_protocols() {
    assert_eq!(parse_proto("h2c"), Some(Proto::H2C));
    assert_eq!(parse_proto("tls"), Some(Proto::TLS));
    assert_eq!(parse_proto("h1"), Some(Proto::H1));
    assert_eq!(parse_proto("h3"), None);
}

#[test]
fn big_body_size() {
    let b = big_body();
    assert_eq!(b.len(), "this is a big chunk".len() * 256 * 128);
    assert!(b.starts_with("this is a big chunkthis is"));
}

#[test]
fn request_body_framing() {
    let mut h = pairs(&[("content-length", "1"), ("a", "b"), ("content-length", "2")]);
    assert_eq!(prepare_request_body(&mut h, Some(10)), BodyWriteMode::ContentLength);
    assert_eq!(h, pairs(&[("a", "b"), ("content-length", "10")]));
    let mut h = pairs(&[("a", "b")]);
    assert_eq!(prepare_request_body(&mut h, Some(0)), BodyWriteMode::Empty);
    assert_eq!(prepare_request_body(&mut h, None), BodyWriteMode::Chunked);
    assert_eq!(h, pairs(&[("a", "b")]));
}

#[test]
fn goaway_and_rst_payloads() {
    let st = ConnState::new(ServerConf::default_conf());
    let g = st.goaway_for(&H2ConnectionError::WindowUpdateOverflow, b"why".to_vec());
    assert_eq!(g.last_stream_id, StreamId(0));
    assert_eq!(g.error_code.0, 3);
    assert_eq!(g.additional_debug_data, b"why".to_vec());
    assert_eq!(rst_payload(H2StreamError::RefusedStream).error_code.0, 7);
}

fn head(authority: Option<&str>, hs: &[(&str, &str)]) -> RequestHead {
    RequestHead {
        method: b"GET".to_vec(),
        scheme: b"https".to_vec(),
        path: b"/a?b=c".to_vec(),
        authority: authority.map(|a| a.as_bytes().to_vec()),
        headers: pairs(hs),
    }
}

#[test]
fn requests_from_heads() {
    let req = into_request(head(Some("example.com"), &[("x-a", "1"), ("Accept", "*/*")])).unwrap();
    assert_eq!(req.method, Method::Get);
    assert_eq!(req.version, Version::Http2);
    assert_eq!(req.uri.scheme, b"https".to_vec());
    assert_eq!(req.uri.authority, b"example.com".to_vec());
    assert_eq!(req.uri.path_and_query, b"/a?b=c".to_vec());
    assert_eq!(req.uri.path(), b"/a".to_vec());
    assert_eq!(req.headers.len(), 2);
    assert_eq!(req.headers[0].0.as_str(), "x-a");
    assert_eq!(req.headers[1].0.as_str(), "accept");
    assert_eq!(req.headers[1].1, b"*/*".to_vec());
    assert_eq!(req.header_names, vec![b"x-a".to_vec(), b"accept".to_vec()]);

    assert_eq!(into_request(head(None, &[])).err(), Some(RequestError::MissingAuthority));
    assert_eq!(
        into_request(head(Some("example.com"), &[("bad name", "1")])).err(),
        Some(RequestError::InvalidHeaderName)
    );
    assert_eq!(into_request(head(Some("a b"), &[])).err(), Some(RequestError::InvalidAuthority));
    let mut h = head(Some("example.com"), &[]);
    h.method = vec![0xff];
    assert_eq!(into_request(h).err(), Some(RequestError::MethodNotUtf8));
    let mut h = head(Some("example.com"), &[]);
    h.scheme = b"h t".to_vec();
    assert_eq!(into_request(h).err(), Some(RequestError::InvalidScheme));
    let mut h = head(Some("example.com"), &[]);
    h.scheme = vec![b'a'; 65];
    assert_eq!(into_request(h).err(), Some(RequestError::InvalidScheme));
    let mut h = head(Some("example.com"), &[]);
    h.scheme = b"x-my.scheme+v1".to_vec();
    assert!(into_request(h).is_ok());
    assert_eq!(
        into_request(head(Some("example.com"), &[("", "1")])).err(),
        Some(RequestError::InvalidHeaderName)
    );
    let mut h = head(Some("example.com"), &[]);
    h.path = b"/a b".to_vec();
    assert_eq!(into_request(h).err(), Some(RequestError::InvalidPath));
}

#[test]
fn request_uri_texts() {
    let mut h = head(Some("example.com:8443"), &[]);
    h.path = b"/x/y?q=1#frag".to_vec();
    let req = into_request(h).unwrap();
    assert_eq!(req.uri.authority, b"example.com:8443".to_vec());
    assert_eq!(req.uri.path_and_query, b"/x/y?q=1".to_vec());
    assert_eq!(req.uri.path(), b"/x/y".to_vec());
    let mut h = head(Some("example.com"), &[]);
    h.path = b"?q".to_vec();
    let req = into_request(h).unwrap();
    assert_eq!(req.uri.path_and_query, b"?q".to_vec());
    assert_eq!(req.uri.path(), b"/".to_vec());
    let mut h = head(Some("example.com"), &[]);
    h.path = b"#only".to_vec();
    let req = into_request(h).unwrap();
    assert_eq!(req.uri.path_and_query, b"/".to_vec());
    assert_eq!(req.uri.path(), b"/".to_vec());
}

#[test]
fn reason_phrases() {
    assert_eq!(reason_bytes(404), b"Not Found");
    assert_eq!(reason_bytes(200), b"OK");
    assert_eq!(reason_bytes(599), b"Unknown");
}

#[test]
fn listen_lines() {
    let tok = |s: &str| decode_listen_line(s).map(|o| o.map(|v| v.into_iter().collect::<String>()));
    assert_eq!(tok("🌎🦊👉 127.0.0.1:8080 (H2C)"), Ok(Some("127.0.0.1:8080".to_string())));
    assert_eq!(tok("Listening on 127.0.0.1:8080"), Ok(None));
    assert_eq!(tok("🌎🦊"), Ok(None));
    assert_eq!(tok("🌎🦊👉   \t"), Err(ListenLineError::NoAddressToken));
    assert_eq!(tok("🌎🦊👉"), Err(ListenLineError::NoAddressToken));
    for rest in ["\u{3000}[::1]:1\tx", "a", " \u{85}b\u{a0}c", "x\u{2009}y", "\u{200b}z w"] {
        let line = format!("🌎🦊👉{rest}");
        let want = rest.split_whitespace().next().map(|t| t.to_string());
        assert_eq!(tok(&line).ok().flatten(), want, "{rest:?}");
    }
}

#[test]
fn listen_line_reads_back() {
    let line: String = listen_line("127.0.0.1:8080", Proto::H2C).into_iter().collect();
    assert_eq!(line, "🌎🦊👉 127.0.0.1:8080 (H2C)");
    let back = decode_listen_line(&line).unwrap().unwrap().into_iter().collect::<String>();
    assert_eq!(back, "127.0.0.1:8080");
    let line: String = listen_line("[::1]:443", Proto::TLS).into_iter().collect();
    assert_eq!(line, format!("🌎🦊👉 [::1]:443 ({:?})", Proto::TLS));
}

#[test]
fn body_error_messages() {
    assert_eq!(BodyErrorReason::InvalidChunkSize.as_err().message(), "body error: InvalidChunkSize");
    assert_eq!(
        BodyErrorReason::ClosedWhileReadingChunkData.with_cx("reading \"x\"".to_string()).message(),
        "body error: ClosedWhileReadingChunkData (\"reading \\\"x\\\"\")"
    );
}

#[test]
fn responder_steps() {
    let mut res = Responder::new(false, false);
    assert_eq!(res.write_interim_response(200).err(), Some(ResponseStatusError::InterimNotInformational));
    assert_eq!(res.write_interim_response(103), Ok(EncoderCall::WriteResponse { status: 103 }));
    let (mut res, call) = match res.write_final_response(200, Some(5), false, vec![]) {
        Ok(x) => x,
        Err(_) => panic!("a final status is accepted"),
    };
    assert_eq!(call, EncoderCall::WriteResponse { status: 200 });
    assert_eq!(res.write_chunk(b"abc".to_vec()), Ok(EncoderCall::WriteBodyChunk(b"abc".to_vec())));
    assert_eq!(res.write_chunk(b"def".to_vec()), Err(ResponseStatusError::BeyondContentLength));
    assert_eq!(res.written, 3);
    assert_eq!(res.write_chunk(b"de".to_vec()), Ok(EncoderCall::WriteBodyChunk(b"de".to_vec())));
    let (done, calls) = match res.finish_body(None) {
        Ok(x) => x,
        Err(_) => panic!("the body matches its length"),
    };
    assert_eq!(calls, vec![EncoderCall::WriteBodyEnd]);
    assert_eq!(done.written, 5);
    match Responder::new(false, false).write_final_response(101, None, false, vec![]) {
        Err(e) => assert_eq!(e, ResponseStatusError::FinalIsInformational),
        Ok(_) => panic!("a 1xx final status is refused"),
    }
}

#[test]
fn responder_expect_continue() {
    match Responder::new(true, false).write_final_response(200, None, false, vec![]) {
        Err(e) => assert_eq!(e, ResponseStatusError::ContinuePending),
        Ok(_) => panic!("a final response before 100 Continue is refused"),
    }
    let mut res = Responder::new(true, false);
    assert_eq!(res.write_interim_response(100), Ok(EncoderCall::WriteResponse { status: 100 }));
    assert!(!res.continue_pending);
    assert!(res.write_final_response(200, None, false, vec![]).is_ok());
}

#[test]
fn responder_length_and_trailers() {
    let (res, _) = Responder::new(false, true).write_final_response(200, Some(4), false, vec![]).ok().unwrap();
    assert_eq!(res.finish_body(None).err(), Some(ResponseStatusError::LengthMismatch));

    let trailers = vec![(b"x-sum".to_vec(), b"1".to_vec())];
    let (res, _) = Responder::new(false, true)
        .write_final_response(200, None, true, vec![b"x-sum".to_vec()])
        .ok()
        .unwrap();
    let (_, calls) = res.finish_body(Some(trailers.clone())).ok().unwrap();
    assert_eq!(calls, vec![EncoderCall::WriteBodyEnd, EncoderCall::WriteTrailers(trailers.clone())]);

    // not announced
    let (res, _) = Responder::new(false, true).write_final_response(200, None, true, vec![]).ok().unwrap();
    assert_eq!(res.finish_body(Some(trailers.clone())).err(), Some(ResponseStatusError::TrailersNotAllowed));
    // not accepted by the client
    let (res, _) = Responder::new(false, false)
        .write_final_response(200, None, true, vec![b"x-sum".to_vec()])
        .ok()
        .unwrap();
    assert_eq!(res.finish_body(Some(trailers.clone())).err(), Some(ResponseStatusError::TrailersNotAllowed));
    // not chunked
    let (res, _) = Responder::new(false, true)
        .write_final_response(200, None, false, vec![b"x-sum".to_vec()])
        .ok()
        .unwrap();
    assert_eq!(res.finish_body(Some(trailers.clone())).err(), Some(ResponseStatusError::TrailersNotAllowed));
    // a status without a body
    let (res, _) = Responder::new(false, true)
        .write_final_response(205, None, true, vec![b"x-sum".to_vec()])
        .ok()
        .unwrap();
    assert_eq!(res.finish_body(Some(trailers)).err(), Some(ResponseStatusError::TrailersNotAllowed));
}

#[test]
fn responder_whole_response() {
    let mut headers: Vec<(Vec<u8>, Vec<u8>)> = vec![(b"x-a".to_vec(), b"1".to_vec())];
    let (done, calls) = Responder::new(false, false)
        .write_final_response_with_body(200, &mut headers, Some(5), vec![b"he".to_vec(), b"llo".to_vec()], None)
        .ok()
        .unwrap();
    assert_eq!(
        calls,
        vec![
            EncoderCall::WriteResponse { status: 200 },
            EncoderCall::WriteBodyChunk(b"he".to_vec()),
            EncoderCall::WriteBodyChunk(b"llo".to_vec()),
            EncoderCall::WriteBodyEnd,
        ]
    );
    assert_eq!(done.written, 5);
    assert_eq!(headers[1], (b"content-length".to_vec(), b"5".to_vec()));

    let mut h = Vec::new();
    let r = Responder::new(false, false).write_final_response_with_body(200, &mut h, Some(6), vec![b"hello".to_vec()], None);
    assert_eq!(r.err(), Some(ResponseStatusError::LengthMismatch));
    let mut h = Vec::new();
    let r = Responder::new(false, false).write_final_response_with_body(200, &mut h, Some(4), vec![b"hello".to_vec()], None);
    assert_eq!(r.err(), Some(ResponseStatusError::BeyondContentLength));
    let mut h = Vec::new();
    let r = Responder::new(true, false).write_final_response_with_body(200, &mut h, None, vec![], None);
    assert_eq!(r.err(), Some(ResponseStatusError::ContinuePending));

    let mut h = Vec::new();
    let (_, calls) = Responder::new(false, true)
        .write_final_response_with_body(200, &mut h, None, vec![b"x".to_vec()], Some(vec![]))
        .ok()
        .unwrap();
    assert_eq!(calls.len(), 4);
    assert_eq!(calls[3], EncoderCall::WriteTrailers(vec![]));
    assert!(h.is_empty());
    let mut h = Vec::new();
    let r = Responder::new(false, true).write_final_response_with_body(
        200,
        &mut h,
        None,
        vec![b"x".to_vec()],
        Some(vec![(b"x-sum".to_vec(), b"1".to_vec())]),
    );
    assert_eq!(r.err(), Some(ResponseStatusError::TrailersNotAllowed));
}

#[test]
fn responder_for_request() {
    let r = Responder::for_request(&pairs(&[("expect", "100-continue"), ("te", "trailers")]));
    assert!(r.continue_pending);
    assert!(r.trailers_accepted);
    let r = Responder::for_request(&pairs(&[("te", "gzip"), ("x-a", "trailers")]));
    assert!(!r.continue_pending);
    assert!(!r.trailers_accepted);
    let r = Responder::for_request(&pairs(&[("Expect", "100-continue"), ("te", "deflate, trailers")]));
    assert!(r.continue_pending);
    assert!(r.trailers_accepted);
}
