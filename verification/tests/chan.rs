use loona::driver::{plan_response, PlannedBody};
use loona::chan::{ChanReadGuarded, ChanReadStep};
use loona::driver::{expects_continue, route, RepeatBody, RepeatChunk, Route};

fn read(cr: &mut ChanReadGuarded, max: usize) -> Vec<u8> {
    match cr.try_read(max) {
        ChanReadStep::Data(d) => d,
        other => panic!("expected data, got {other:?}"),
    }
}

#[test]
fn test_chan_reader() {
    let mut cr = ChanReadGuarded::new();
    // the sender offers "one", "two", "three", "splitread" in turn, each
    // taken once the previous one was read whole
    assert!(cr.try_send(b"one".to_vec()).is_ok());
    assert_eq!(cr.try_send(b"two".to_vec()), Err(b"two".to_vec()));
    assert_eq!(read(&mut cr, 256), b"one".to_vec());

    assert!(cr.try_send(b"two".to_vec()).is_ok());
    // "three" is not written before "two" was read
    assert_eq!(cr.try_send(b"three".to_vec()), Err(b"three".to_vec()));
    assert_eq!(read(&mut cr, 256), b"two".to_vec());

    assert!(cr.try_send(b"three".to_vec()).is_ok());
    assert_eq!(read(&mut cr, 256), b"three".to_vec());

    assert!(cr.try_send(b"splitread".to_vec()).is_ok());
    cr.close_sender();
    assert_eq!(read(&mut cr, 5), b"split".to_vec());
    assert_eq!(read(&mut cr, 256), b"read".to_vec());
    assert_eq!(cr.try_read(0), ChanReadStep::Eof, "reached EOF");

    let mut cr = ChanReadGuarded::new();
    assert!(cr.try_send(b"two-part".to_vec()).is_ok());
    cr.reset();
    assert_eq!(read(&mut cr, 4), b"two-".to_vec());
    assert_eq!(read(&mut cr, 4), b"part".to_vec());
    assert_eq!(cr.try_read(4), ChanReadStep::Reset);
}

#[test]
fn chan_reader_waits() {
    let mut cr = ChanReadGuarded::new();
    assert_eq!(cr.try_read(10), ChanReadStep::Wait);
}

#[test]
fn test_server_routes() {
    assert_eq!(route(b"/echo-body"), Route::EchoBody);
    assert_eq!(route(b"/stream-big-body"), Route::StreamBigBody);
    assert_eq!(route(b"/"), Route::Other);
    let h = vec![(b"Expect".to_vec(), b"100-continue".to_vec())];
    assert!(expects_continue(&h));
    let h = vec![(b"expect".to_vec(), b"nothing".to_vec()), (b"expect".to_vec(), b"100-continue".to_vec())];
    assert!(!expects_continue(&h));
    assert!(!expects_continue(&vec![]));
}

#[test]
fn repeat_body() {
    let mut b = RepeatBody { piece: b"ab".to_vec(), n: 2, written: 0 };
    assert_eq!(b.content_len(), Some(4));
    assert_eq!(b.next_chunk(), RepeatChunk::Chunk(b"ab".to_vec()));
    assert!(!b.eof());
    assert_eq!(b.next_chunk(), RepeatChunk::Chunk(b"ab".to_vec()));
    assert!(b.eof());
    assert_eq!(b.next_chunk(), RepeatChunk::Done);
}

#[test]
fn response_plans() {
    let h = |v: &[(&str, &str)]| -> Vec<(Vec<u8>, Vec<u8>)> {
        v.iter().map(|(a, b)| (a.as_bytes().to_vec(), b.as_bytes().to_vec())).collect()
    };
    let p = plan_response(&h(&[("Expect", "100-continue")]), b"/echo-body");
    assert!(p.interim_continue);
    assert_eq!(p.status, 200);
    assert_eq!(p.body, PlannedBody::EchoRequest);
    let p = plan_response(&h(&[("accept", "*/*")]), b"/");
    assert!(!p.interim_continue);
    assert_eq!(p.body, PlannedBody::Fixed(b"it's less dire to lose, than to lose oneself".to_vec()));
    let p = plan_response(&h(&[]), b"/stream-big-body");
    assert_eq!(
        p.body,
        PlannedBody::Repeat { piece: "this is a big chunk".repeat(256).into_bytes(), n: 128 }
    );
}
