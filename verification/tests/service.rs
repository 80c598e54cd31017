use loona::service::{service_reply, testbed_reply, ReplyBody, ServiceReply};
use loona::service::{parse_u16, parse_usize, service_route, testbed_route, ServiceRoute, TestbedRoute};

#[test]
fn service_routes() {
    assert_eq!(service_route(b"/echo-body"), ServiceRoute::EchoBody);
    assert_eq!(service_route(b"//echo-body"), ServiceRoute::EchoBody);
    assert_eq!(service_route(b"/status/404"), ServiceRoute::Status(404));
    assert_eq!(service_route(b"/status/+7"), ServiceRoute::Status(7));
    assert_eq!(service_route(b"/status/abc"), ServiceRoute::BadNumber);
    assert_eq!(service_route(b"/status/70000"), ServiceRoute::BadNumber);
    assert_eq!(service_route(b"/repeat-4k-blocks/3"), ServiceRoute::Repeat4kBlocks(3));
    assert_eq!(service_route(b"/stream-file/foo.txt"), ServiceRoute::StreamFile(b"foo.txt".to_vec()));
    assert_eq!(service_route(b"/"), ServiceRoute::Root);
    assert_eq!(service_route(b"///"), ServiceRoute::Root);
    assert_eq!(service_route(b"/echo-body/"), ServiceRoute::NotFound);
    assert_eq!(service_route(b"/nope"), ServiceRoute::NotFound);
    assert_eq!(service_route(b"/status/1/2"), ServiceRoute::NotFound);
}

#[test]
fn testbed_routes() {
    assert_eq!(testbed_route(b"/echo-body"), TestbedRoute::EchoBody);
    assert_eq!(testbed_route(b"//echo-body"), TestbedRoute::NotFound);
    assert_eq!(testbed_route(b"/stream-big-body"), TestbedRoute::StreamBigBody);
    assert_eq!(testbed_route(b"/status/200"), TestbedRoute::Status(200));
    assert_eq!(testbed_route(b"/status/x"), TestbedRoute::BadNumber);
    assert_eq!(testbed_route(b"/"), TestbedRoute::NotFound);
}

#[test]
fn numbers_parse_as_std_does() {
    for s in ["0", "42", "+42", "+", "", "-1", "007", "65535", "65536", "18446744073709551615",
        "18446744073709551616", "99999999999999999999999", "1a", " 1", "++1"]
    {
        assert_eq!(parse_usize(s.as_bytes()), s.parse::<usize>().ok(), "{s}");
        assert_eq!(parse_u16(s.as_bytes()), s.parse::<u16>().ok(), "{s}");
    }
}

#[test]
fn service_replies() {
    let reply = |p: &[u8]| service_reply(&service_route(p));
    assert_eq!(reply(b"/"), Some(ServiceReply {
        status: 200,
        body: ReplyBody::Text(b"it's less dire to lose, than to lose oneself".to_vec())
    }));
    assert_eq!(reply(b"/status/418"), Some(ServiceReply { status: 418, body: ReplyBody::Empty }));
    assert_eq!(reply(b"/status/42"), None);
    assert_eq!(reply(b"/status/x"), None);
    assert_eq!(reply(b"/no/such/route"), Some(ServiceReply {
        status: 404,
        body: ReplyBody::Text(b"404 Not Found".to_vec())
    }));
    assert_eq!(reply(b"/echo-body"), Some(ServiceReply { status: 200, body: ReplyBody::EchoRequest }));
    assert_eq!(reply(b"/repeat-4k-blocks/3"), Some(ServiceReply { status: 200, body: ReplyBody::SampleBlocks(3) }));
    assert_eq!(reply(b"/stream-file/a.bin"), Some(ServiceReply {
        status: 200,
        body: ReplyBody::FileBlocks(b"/tmp/stream-file/a.bin".to_vec())
    }));
    let tb = |p: &[u8]| testbed_reply(testbed_route(p));
    assert_eq!(tb(b"/status/204"), Some(ServiceReply { status: 204, body: ReplyBody::Empty }));
    assert_eq!(tb(b"/elsewhere"), Some(ServiceReply { status: 404, body: ReplyBody::Empty }));
    match tb(b"/stream-big-body") {
        Some(ServiceReply { status: 200, body: ReplyBody::Repeat { piece, n: 128 } }) => {
            assert_eq!(piece, "this is a big chunk".repeat(256).into_bytes())
        }
        other => panic!("unexpected {other:?}"),
    }
}
