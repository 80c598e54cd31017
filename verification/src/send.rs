//! What the server sends: response headers and body chunks queued on the
//! streams, cut into HEADERS, CONTINUATION and DATA frames within the peer's
//! maximum frame size and flow-control windows.
use vstd::prelude::*;

use std::collections::VecDeque;

use crate::frame::{BitFlags, Frame, FrameType, StreamId};
use crate::h2::H2Action;
use crate::h2::{
    vec_contains, BodyOutgoing, ConnState, ConnView, HeadersOutgoing, StreamOutgoing,
    StreamState, MAX_WINDOW_SIZE,
};
use crate::headers::{joined, pairs_view};
use crate::hpack::{encoder_limit, encoder_table, hpack_encoding, response_fields, HpackCodec};

verus! {

/// `b` cut into pieces of `m` bytes, the last one shorter (an empty `b` is
/// one empty piece).
pub open spec fn chunks(b: Seq<u8>, m: nat) -> Seq<Seq<u8>>
    decreases b.len(),
{
    if b.len() <= m || m == 0 {
        seq![b]
    } else {
        seq![b.take(m as int)] + chunks(b.skip(m as int), m)
    }
}

/// A DATA frame header for a payload of `len` bytes.
pub open spec fn data_frame(s: u32, len: nat, end_stream: bool) -> Frame {
    Frame {
        frame_type: FrameType::Data(BitFlags { bits: if end_stream { 0x01 } else { 0x00 } }),
        reserved: 0,
        stream_id: StreamId(s),
        len: len as u32,
    }
}

/// DATA frames carrying the pieces in order; END_STREAM on the last one when
/// `end`.
pub open spec fn data_frames(s: u32, pieces: Seq<Seq<u8>>, end: bool) -> Seq<(Frame, Seq<u8>)> {
    Seq::new(
        pieces.len(),
        |i: int| (data_frame(s, pieces[i].len(), end && i == pieces.len() - 1), pieces[i]),
    )
}

/// The frame header for piece `i` of a header block: HEADERS for the first
/// piece of a block that was not started yet, CONTINUATION otherwise;
/// END_HEADERS on the last piece.
pub open spec fn header_frame(s: u32, len: nat, i: int, n: int, continued: bool) -> Frame {
    let bits: u8 = if i == n - 1 { 0x04 } else { 0x00 };
    Frame {
        frame_type: if i == 0 && !continued {
            FrameType::Headers(BitFlags { bits })
        } else {
            FrameType::Continuation(BitFlags { bits })
        },
        reserved: 0,
        stream_id: StreamId(s),
        len: len as u32,
    }
}

/// The frames carrying a header block cut into pieces.
pub open spec fn header_frames(s: u32, pieces: Seq<Seq<u8>>, continued: bool) -> Seq<
    (Frame, Seq<u8>),
> {
    Seq::new(
        pieces.len(),
        |i: int| (header_frame(s, pieces[i].len(), i, pieces.len() as int, continued), pieces[i]),
    )
}

/// Frames with their payloads, seen as byte sequences.
pub open spec fn frames_view(v: Seq<(Frame, Vec<u8>)>) -> Seq<(Frame, Seq<u8>)> {
    Seq::new(v.len(), |i: int| (v[i].0, v[i].1@))
}

fn copy_range(b: &Vec<u8>, start: usize, end: usize) -> (r: Vec<u8>)
    requires
        start <= end <= b@.len(),
    ensures
        r@ == b@.subrange(start as int, end as int),
{
    let mut out: Vec<u8> = Vec::new();
    let mut k: usize = start;
    while k < end
        invariant
            start <= k <= end,
            end <= b@.len(),
            out@ == b@.subrange(start as int, k as int),
        decreases end - k,
    {
        out.push(b[k]);
        k = k + 1;
        assert(out@ =~= b@.subrange(start as int, k as int));
    }
    out
}

/// Cuts `b` into pieces of at most `m` bytes.
pub fn cut(b: &Vec<u8>, m: usize) -> (r: Vec<Vec<u8>>)
    requires
        m > 0,
    ensures
        r@.len() == chunks(b@, m as nat).len(),
        forall|i: int| 0 <= i < r@.len() ==> #[trigger] r@[i]@ == chunks(b@, m as nat)[i],
{
    let mut out: Vec<Vec<u8>> = Vec::new();
    let mut pos: usize = 0;
    let n = b.len();
    proof {
        assert(b@.skip(0) =~= b@);
        assert(Seq::new(out@.len(), |i: int| out@[i]@) + chunks(b@.skip(0), m as nat) =~= chunks(
            b@,
            m as nat,
        ));
    }
    loop
        invariant
            m > 0,
            n == b@.len(),
            pos <= n,
            pos < n || (pos == 0 && n == 0),
            chunks(b@, m as nat) =~= Seq::new(out@.len(), |i: int| out@[i]@) + chunks(
                b@.skip(pos as int),
                m as nat,
            ),
        decreases n - pos,
    {
        let rest_len = n - pos;
        let ghost rest = b@.skip(pos as int);
        let ghost before = Seq::new(out@.len(), |i: int| out@[i]@);
        if rest_len <= m {
            let piece = copy_range(b, pos, n);
            out.push(piece);
            proof {
                assert(rest =~= b@.subrange(pos as int, n as int));
                assert(chunks(rest, m as nat) == seq![rest]);
                assert(Seq::new(out@.len(), |i: int| out@[i]@) =~= before + seq![rest]);
            }
            return out;
        }
        let piece = copy_range(b, pos, pos + m);
        out.push(piece);
        proof {
            assert(rest.take(m as int) =~= b@.subrange(pos as int, pos + m));
            assert(rest.skip(m as int) =~= b@.skip(pos + m));
            assert(chunks(rest, m as nat) == seq![rest.take(m as int)] + chunks(
                rest.skip(m as int),
                m as nat,
            ));
            assert(Seq::new(out@.len(), |i: int| out@[i]@) =~= before + seq![rest.take(m as int)]);
        }
        pos = pos + m;
    }
}

/// The connection invariant, leaving aside which streams are pending.
pub open spec fn conn_view_wf_no_pending(v: ConnView) -> bool {
    &&& crate::frame::settings_valid(v.self_settings)
    &&& crate::frame::settings_valid(v.peer_settings)
    &&& 0 <= v.outgoing_capacity <= MAX_WINDOW_SIZE
    &&& 0 <= v.incoming_capacity <= MAX_WINDOW_SIZE
    &&& forall|id: u32| #[trigger]
        v.streams.contains_key(id) ==> crate::h2::stream_windows_ok(
            v.streams[id],
            v.peer_settings.initial_window_size,
        )
}

/// The bytes of a queue of body chunks, in order.
pub open spec fn queue_bytes(q: VecDeque<Vec<u8>>) -> Seq<u8> {
    joined(q@)
}

proof fn lemma_joined_first(q: Seq<Vec<u8>>)
    requires
        q.len() > 0,
    ensures
        joined(q) == q[0]@ + joined(q.drop_first()),
    decreases q.len(),
{
    if q.len() == 1 {
        assert(q.drop_first() =~= Seq::<Vec<u8>>::empty());
        assert(q.drop_last() =~= Seq::<Vec<u8>>::empty());
        assert(joined(q.drop_first()) =~= Seq::<u8>::empty());
        assert(joined(q) =~= q[0]@);
    } else {
        lemma_joined_first(q.drop_last());
        assert(q.drop_last().drop_first() =~= q.drop_first().drop_last());
        assert(q.drop_first().last() == q.last());
        assert(q.drop_last()[0] == q[0]);
        assert(joined(q) =~= q[0]@ + joined(q.drop_first()));
    }
}

/// Takes the first `n` bytes off a queue of body chunks (all of them when
/// there are fewer); a chunk that is cut leaves its rest at the front.
pub fn take_bytes(q: &mut VecDeque<Vec<u8>>, n: usize) -> (r: Vec<u8>)
    ensures
        r@ == queue_bytes(*old(q)).take(
            if n <= queue_bytes(*old(q)).len() { n as int } else { queue_bytes(*old(q)).len() as int },
        ),
        queue_bytes(*final(q)) == queue_bytes(*old(q)).skip(r@.len() as int),
{
    let mut out: Vec<u8> = Vec::new();
    let ghost all = queue_bytes(*q);
    loop
        invariant
            out@.len() <= n,
            all == out@ + queue_bytes(*q),
        ensures
            all == out@ + queue_bytes(*q),
            out@.len() == n || queue_bytes(*q).len() == 0,
        decreases queue_bytes(*q).len(), q@.len(),
    {
        if out.len() == n {
            break;
        }
        let ghost q0 = q@;
        match q.pop_front() {
            None => {
                proof {
                    assert(q0.len() == 0);
                }
                break;
            },
            Some(piece) => {
                proof {
                    lemma_joined_first(q0);
                    assert(q@ =~= q0.drop_first());
                }
                let want = n - out.len();
                if piece.len() <= want {
                    let mut k: usize = 0;
                    let ghost o0 = out@;
                    while k < piece.len()
                        invariant
                            k <= piece@.len(),
                            out@ == o0 + piece@.subrange(0, k as int),
                        decreases piece@.len() - k,
                    {
                        out.push(piece[k]);
                        k = k + 1;
                        assert(out@ =~= o0 + piece@.subrange(0, k as int));
                    }
                    proof {
                        assert(piece@.subrange(0, k as int) =~= piece@);
                        assert(all =~= out@ + queue_bytes(*q));
                    }
                } else {
                    let mut k: usize = 0;
                    let ghost o0 = out@;
                    while k < want
                        invariant
                            k <= want,
                            want < piece@.len(),
                            out@ == o0 + piece@.subrange(0, k as int),
                        decreases want - k,
                    {
                        out.push(piece[k]);
                        k = k + 1;
                        assert(out@ =~= o0 + piece@.subrange(0, k as int));
                    }
                    let rest = copy_range(&piece, want, piece.len());
                    let ghost q1 = q@;
                    q.push_front(rest);
                    proof {
                        assert(q@ =~= seq![rest].add(q1));
                        lemma_joined_first(q@);
                        assert(q@.drop_first() =~= q1);
                        assert(piece@ =~= piece@.subrange(0, want as int) + rest@);
                        assert(all =~= out@ + queue_bytes(*q));
                    }
                    break;
                }
            },
        }
    }
    proof {
        assert(out@ =~= all.take(out@.len() as int));
        assert(queue_bytes(*q) =~= all.skip(out@.len() as int));
    }
    out
}


/// The pieces, seen as byte sequences.
pub open spec fn pieces_view(v: Seq<Vec<u8>>) -> Seq<Seq<u8>> {
    Seq::new(v.len(), |i: int| v[i]@)
}

/// DATA frames carrying `pieces` on stream `s`; END_STREAM on the last when
/// `end`.
pub fn make_data_frames(s: u32, pieces: Vec<Vec<u8>>, end: bool) -> (r: Vec<(Frame, Vec<u8>)>)
    ensures
        frames_view(r@) == data_frames(s, pieces_view(pieces@), end),
{
    let n = pieces.len();
    let ghost pv = pieces_view(pieces@);
    let mut out: Vec<(Frame, Vec<u8>)> = Vec::new();
    let mut rest = pieces;
    let mut k: usize = 0;
    proof {
        assert(rest@.skip(0) =~= rest@);
    }
    while k < n
        invariant
            n == pv.len(),
            k <= n,
            out@.len() == k,
            rest@.len() == n - k,
            forall|i: int| 0 <= i < rest@.len() ==> #[trigger] rest@[i]@ == pv[k + i],
            forall|i: int| 0 <= i < k ==> #[trigger] frames_view(out@)[i] == data_frames(s, pv, end)[i],
        decreases n - k,
    {
        let piece = rest.remove(0);
        let last = k + 1 == n;
        let f = Frame {
            frame_type: FrameType::Data(BitFlags { bits: if end && last { 0x01 } else { 0x00 } }),
            reserved: 0,
            stream_id: StreamId(s),
            len: #[verifier::truncate] (piece.len() as u32),
        };
        proof {
            assert(piece@ == pv[k as int]);
        }
        let ghost old_out = out@;
        let ghost fp = (f, piece@);
        out.push((f, piece));
        proof {
            assert(fp == data_frames(s, pv, end)[k as int]);
            assert forall|i: int| 0 <= i < k + 1 implies #[trigger] frames_view(out@)[i]
                == data_frames(s, pv, end)[i] by {
                if i < k {
                    assert(out@[i] == old_out[i]);
                    assert(frames_view(old_out)[i] == data_frames(s, pv, end)[i]);
                }
            }
        }
        k = k + 1;
    }
    assert(frames_view(out@) =~= data_frames(s, pv, end));
    out
}

/// The frames carrying the pieces of a header block on stream `s`.
pub fn make_header_frames(s: u32, pieces: Vec<Vec<u8>>, continued: bool) -> (r: Vec<
    (Frame, Vec<u8>),
>)
    ensures
        frames_view(r@) == header_frames(s, pieces_view(pieces@), continued),
{
    let n = pieces.len();
    let ghost pv = pieces_view(pieces@);
    let mut out: Vec<(Frame, Vec<u8>)> = Vec::new();
    let mut rest = pieces;
    let mut k: usize = 0;
    while k < n
        invariant
            n == pv.len(),
            k <= n,
            out@.len() == k,
            rest@.len() == n - k,
            forall|i: int| 0 <= i < rest@.len() ==> #[trigger] rest@[i]@ == pv[k + i],
            forall|i: int|
                0 <= i < k ==> #[trigger] frames_view(out@)[i] == header_frames(s, pv, continued)[i],
        decreases n - k,
    {
        let piece = rest.remove(0);
        let bits: u8 = if k + 1 == n { 0x04 } else { 0x00 };
        let frame_type = if k == 0 && !continued {
            FrameType::Headers(BitFlags { bits })
        } else {
            FrameType::Continuation(BitFlags { bits })
        };
        let f = Frame { frame_type, reserved: 0, stream_id: StreamId(s), len: #[verifier::truncate] (piece.len() as u32) };
        proof {
            assert(piece@ == pv[k as int]);
        }
        let ghost old_out = out@;
        let ghost fp = (f, piece@);
        out.push((f, piece));
        proof {
            assert(fp == header_frames(s, pv, continued)[k as int]);
            assert forall|i: int| 0 <= i < k + 1 implies #[trigger] frames_view(out@)[i]
                == header_frames(s, pv, continued)[i] by {
                if i < k {
                    assert(out@[i] == old_out[i]);
                    assert(frames_view(old_out)[i] == header_frames(s, pv, continued)[i]);
                }
            }
        }
        k = k + 1;
    }
    assert(frames_view(out@) =~= header_frames(s, pv, continued));
    out
}


/// Where the response headers of a stream are, as bytes.
pub enum HeadersView {
    /// no headers yet
    Waiting,
    /// this block is still to be written; `true` when its first part was
    /// already written
    ToWrite(Seq<u8>, bool),
    /// every header byte was written
    Written,
}

pub open spec fn headers_view(h: HeadersOutgoing) -> HeadersView {
    match h {
        HeadersOutgoing::WaitingForHeaders => HeadersView::Waiting,
        HeadersOutgoing::WroteNone(b) => HeadersView::ToWrite(b@, false),
        HeadersOutgoing::WroteSome(b) => HeadersView::ToWrite(b@, true),
        HeadersOutgoing::WroteAll => HeadersView::Written,
    }
}

/// Where the response body of a stream is, as bytes.
pub enum BodyView {
    /// these bytes are to be written, and more may come
    Receiving(Seq<u8>),
    /// these are the last bytes to write
    Received(Seq<u8>),
    /// the body was written, with END_STREAM
    Sent,
}

pub open spec fn body_view(b: BodyOutgoing) -> BodyView {
    match b {
        BodyOutgoing::StillReceiving(q) => BodyView::Receiving(queue_bytes(q)),
        BodyOutgoing::DoneReceiving(q) => BodyView::Received(queue_bytes(q)),
        BodyOutgoing::DoneSending => BodyView::Sent,
    }
}

/// The sending side of a stream, as bytes.
pub struct SendView {
    pub headers: HeadersView,
    pub body: BodyView,
    pub capacity: int,
}

pub open spec fn outgoing_view(o: StreamOutgoing) -> SendView {
    SendView { headers: headers_view(o.headers), body: body_view(o.body), capacity: o.capacity as int }
}

/// What one turn of sending does to a stream.
pub struct SendResult {
    /// the sending side afterwards
    pub out: SendView,
    /// the frames to write, in order
    pub frames: Seq<(Frame, Seq<u8>)>,
    /// how many body bytes they carry
    pub sent: int,
    /// whether the body was finished (END_STREAM written)
    pub ended: bool,
}

/// How many body bytes a stream may send now: what both its window and the
/// connection's allow (a negative window allows nothing).
pub open spec fn stream_budget(conn: int, cap: int) -> int {
    let c = if cap < 0 { 0 } else { cap };
    if conn < c {
        conn
    } else {
        c
    }
}

/// One turn of sending on stream `s`, whose headers are not awaited: the
/// pending header block goes out whole, cut at the maximum frame size `m`;
/// then as much body as the budget allows, cut the same way, with
/// END_STREAM once the last byte of a finished body is out (an empty DATA
/// frame when nothing else remains).
pub open spec fn send_once(o: SendView, s: u32, conn: int, m: nat) -> SendResult {
    let hframes = match o.headers {
        HeadersView::ToWrite(b, cont) => header_frames(s, chunks(b, m), cont),
        _ => Seq::empty(),
    };
    let hv = match o.headers {
        HeadersView::ToWrite(_, _) => HeadersView::Written,
        h => h,
    };
    let budget = stream_budget(conn, o.capacity);
    match o.body {
        BodyView::Receiving(bytes) => {
            let sent = if budget < bytes.len() { budget } else { bytes.len() as int };
            SendResult {
                out: SendView {
                    headers: hv,
                    body: BodyView::Receiving(bytes.skip(sent)),
                    capacity: o.capacity - sent,
                },
                frames: hframes + if sent > 0 {
                    data_frames(s, chunks(bytes.take(sent), m), false)
                } else {
                    Seq::empty()
                },
                sent,
                ended: false,
            }
        },
        BodyView::Received(bytes) => {
            let sent = if budget < bytes.len() { budget } else { bytes.len() as int };
            let end = budget > 0 && sent == bytes.len();
            SendResult {
                out: SendView {
                    headers: hv,
                    body: if end { BodyView::Sent } else { BodyView::Received(bytes.skip(sent)) },
                    capacity: o.capacity - sent,
                },
                frames: hframes + if sent > 0 || end {
                    data_frames(s, chunks(bytes.take(sent), m), end)
                } else {
                    Seq::empty()
                },
                sent,
                ended: end,
            }
        },
        BodyView::Sent => SendResult {
            out: SendView { headers: hv, body: BodyView::Sent, capacity: o.capacity },
            frames: hframes,
            sent: 0,
            ended: false,
        },
    }
}

/// The sending side of a stream state.
pub open spec fn outgoing_of(st: StreamState) -> Option<StreamOutgoing> {
    match st {
        StreamState::Open { outgoing, .. } => Some(outgoing),
        StreamState::HalfClosedRemote { outgoing } => Some(outgoing),
        _ => None,
    }
}

/// `st2` is `st` with its sending side seen as `o`.
pub open spec fn same_but_outgoing(st: StreamState, st2: StreamState, o: SendView) -> bool {
    match st {
        StreamState::Open { incoming, .. } => st2 matches StreamState::Open {
            incoming: i2,
            outgoing: o2,
        } && i2 == incoming && outgoing_view(o2) == o,
        StreamState::HalfClosedRemote { .. } => st2 matches StreamState::HalfClosedRemote {
            outgoing: o2,
        } && outgoing_view(o2) == o,
        _ => false,
    }
}

/// The connection after one turn of sending on stream `s`: both windows
/// lose what was sent; a finished body closes our side of the stream (and
/// the whole stream when the peer's side was closed already).
pub open spec fn stream_sent(v: ConnView, v2: ConnView, s: u32, res: SendResult) -> bool {
    let st = v.streams[s];
    &&& v2.outgoing_capacity == v.outgoing_capacity - res.sent
    &&& if res.ended {
        match st {
            StreamState::Open { incoming, .. } => v2 == (ConnView {
                streams: v.streams.insert(s, StreamState::HalfClosedLocal { incoming }),
                pending: v.pending.remove(s),
                outgoing_capacity: v2.outgoing_capacity,
                ..v
            }),
            _ => v2 == (ConnView {
                streams: v.streams.remove(s),
                pending: v.pending.remove(s),
                outgoing_capacity: v2.outgoing_capacity,
                ..v
            }),
        }
    } else {
        &&& v2 == (ConnView {
            streams: v.streams.insert(s, v2.streams[s]),
            outgoing_capacity: v2.outgoing_capacity,
            ..v
        })
        &&& same_but_outgoing(st, v2.streams[s], res.out)
    }
}

/// One stream's turn in a sending pass, from connection `v1` after the
/// frames `fs1` and with the streams `w1` found waiting for their headers:
/// nothing happens once the connection window is used up or when the stream
/// is no longer pending; a stream still waiting for its response headers is
/// only noted; any other stream takes its turn (`send_once`), whose frames
/// follow the earlier ones.
pub open spec fn send_step(
    v1: ConnView,
    id: u32,
    m: nat,
    fs1: Seq<(Frame, Seq<u8>)>,
    w1: Set<u32>,
    fs: Seq<(Frame, Seq<u8>)>,
    v2: ConnView,
    w: Set<u32>,
) -> bool {
    if v1.outgoing_capacity <= 0 || !v1.pending.contains(id) {
        fs == fs1 && v2 == v1 && w == w1
    } else {
        let o = outgoing_of(v1.streams[id])->Some_0;
        if o.headers is WaitingForHeaders {
            fs == fs1 && v2 == v1 && w == w1.insert(id)
        } else {
            let res = send_once(outgoing_view(o), id, v1.outgoing_capacity as int, m);
            &&& fs == fs1 + res.frames
            &&& stream_sent(v1, v2, id, res)
            &&& w == w1
        }
    }
}

/// A sending pass over the streams `ids`, in order, from connection `v`,
/// traced: `vs[i]`, `fss[i]` and `ws[i]` are the connection, the frames
/// written so far and the streams found waiting for their response headers
/// before the turn of `ids[i]`; each turn is a `send_step`.
pub open spec fn send_trace(
    v: ConnView,
    ids: Seq<u32>,
    m: nat,
    vs: Seq<ConnView>,
    fss: Seq<Seq<(Frame, Seq<u8>)>>,
    ws: Seq<Set<u32>>,
) -> bool {
    &&& vs.len() == ids.len() + 1
    &&& fss.len() == ids.len() + 1
    &&& ws.len() == ids.len() + 1
    &&& vs[0] == v
    &&& fss[0] == Seq::<(Frame, Seq<u8>)>::empty()
    &&& ws[0] == Set::<u32>::empty()
    &&& forall|i: int|
        0 <= i < ids.len() ==> send_step(
            vs[i],
            #[trigger] ids[i],
            m,
            fss[i],
            ws[i],
            fss[i + 1],
            vs[i + 1],
            ws[i + 1],
        )
}

/// Once the connection window is used up, the rest of a pass changes
/// nothing: a trace of the first `k` turns extends to all of them.
proof fn lemma_send_trace_rest(
    v: ConnView,
    ids: Seq<u32>,
    k: int,
    m: nat,
    vs: Seq<ConnView>,
    fss: Seq<Seq<(Frame, Seq<u8>)>>,
    ws: Seq<Set<u32>>,
) -> (r: (Seq<ConnView>, Seq<Seq<(Frame, Seq<u8>)>>, Seq<Set<u32>>))
    requires
        0 <= k <= ids.len(),
        send_trace(v, ids.take(k), m, vs, fss, ws),
        vs.last().outgoing_capacity <= 0,
    ensures
        send_trace(v, ids, m, r.0, r.1, r.2),
        r.0.last() == vs.last(),
        r.1.last() == fss.last(),
        r.2.last() == ws.last(),
    decreases ids.len() - k,
{
    if k < ids.len() {
        let vs2 = vs.push(vs.last());
        let fss2 = fss.push(fss.last());
        let ws2 = ws.push(ws.last());
        let t = ids.take(k + 1);
        assert forall|i: int| 0 <= i < t.len() implies send_step(
            vs2[i],
            #[trigger] t[i],
            m,
            fss2[i],
            ws2[i],
            fss2[i + 1],
            vs2[i + 1],
            ws2[i + 1],
        ) by {
            if i < k {
                assert(t[i] == ids.take(k)[i]);
            } else {
                assert(vs2[i] == vs.last());
            }
        }
        lemma_send_trace_rest(v, ids, k + 1, m, vs2, fss2, ws2)
    } else {
        assert(ids.take(k) =~= ids);
        (vs, fss, ws)
    }
}

/// The header block encoding a response head, with the codec's encoder as
/// it is.
pub open spec fn response_block(codec: HpackCodec, status: u16, headers: Seq<(Vec<u8>, Vec<u8>)>) -> Seq<
    u8,
> {
    hpack_encoding(
        encoder_table(codec.enc),
        encoder_limit(codec.enc),
        response_fields(status, pairs_view(headers)),
    ).0
}

proof fn lemma_to_set_push(s: Seq<u32>, x: u32)
    ensures
        s.push(x).to_set() == s.to_set().insert(x),
{
    assert forall|y: u32| #[trigger] s.push(x).to_set().contains(y) <==> s.to_set().insert(x).contains(y) by {
        if y == x {
            assert(s.push(x)[s.len() as int] == x);
        }
        if s.push(x).contains(y) && y != x {
            let j = choose|j: int| 0 <= j < s.push(x).len() && s.push(x)[j] == y;
            assert(j < s.len());
            assert(s[j] == y);
        }
        if s.contains(y) {
            let j = choose|j: int| 0 <= j < s.len() && s[j] == y;
            assert(s.push(x)[j] == y);
        }
    }
    assert(s.push(x).to_set() =~= s.to_set().insert(x));
}

proof fn lemma_frames_view_add(a: Seq<(Frame, Vec<u8>)>, b: Seq<(Frame, Vec<u8>)>)
    ensures
        frames_view(a + b) == frames_view(a) + frames_view(b),
{
    assert(frames_view(a + b) =~= frames_view(a) + frames_view(b));
}

/// Whether the chunks in the queue hold any byte.
fn queue_has_bytes(q: &VecDeque<Vec<u8>>) -> (r: bool)
    ensures
        r == (queue_bytes(*q).len() > 0),
{
    let mut k: usize = 0;
    while k < q.len()
        invariant
            k <= q@.len(),
            joined(q@.subrange(0, k as int)).len() == 0,
        decreases q@.len() - k,
    {
        proof {
            let p1 = q@.subrange(0, k + 1);
            assert(p1.drop_last() =~= q@.subrange(0, k as int));
        }
        if q[k].len() > 0 {
            proof {
                lemma_joined_prefix_grows(q@, k as int);
            }
            return true;
        }
        k = k + 1;
    }
    assert(q@.subrange(0, k as int) =~= q@);
    false
}

proof fn lemma_joined_prefix_grows(q: Seq<Vec<u8>>, k: int)
    requires
        0 <= k < q.len(),
    ensures
        joined(q).len() >= joined(q.subrange(0, k + 1)).len(),
    decreases q.len() - k,
{
    if k + 1 < q.len() {
        lemma_joined_prefix_grows(q, k + 1);
        let p2 = q.subrange(0, k + 2);
        assert(p2.drop_last() =~= q.subrange(0, k + 1));
    } else {
        assert(q.subrange(0, k + 1) =~= q);
    }
}

/// The body bytes a list of frames carries (the payloads of its DATA frames).
pub open spec fn data_bytes(fs: Seq<(Frame, Seq<u8>)>) -> int
    decreases fs.len(),
{
    if fs.len() == 0 {
        0
    } else {
        (if fs[0].0.frame_type is Data {
            fs[0].1.len() as int
        } else {
            0
        }) + data_bytes(fs.drop_first())
    }
}

/// The total length of some pieces.
pub open spec fn sum_lens(p: Seq<Seq<u8>>) -> int
    decreases p.len(),
{
    if p.len() == 0 {
        0
    } else {
        p[0].len() + sum_lens(p.drop_first())
    }
}

pub open spec fn payloads(fs: Seq<(Frame, Seq<u8>)>) -> Seq<Seq<u8>> {
    Seq::new(fs.len(), |i: int| fs[i].1)
}

proof fn lemma_data_bytes_add(a: Seq<(Frame, Seq<u8>)>, b: Seq<(Frame, Seq<u8>)>)
    ensures
        data_bytes(a + b) == data_bytes(a) + data_bytes(b),
    decreases a.len(),
{
    if a.len() == 0 {
        assert(a + b =~= b);
    } else {
        assert((a + b).drop_first() =~= a.drop_first() + b);
        lemma_data_bytes_add(a.drop_first(), b);
    }
}

proof fn lemma_data_bytes_none(fs: Seq<(Frame, Seq<u8>)>)
    requires
        forall|i: int| 0 <= i < fs.len() ==> !(#[trigger] fs[i].0.frame_type is Data),
    ensures
        data_bytes(fs) == 0,
    decreases fs.len(),
{
    if fs.len() > 0 {
        assert(!(fs[0].0.frame_type is Data));
        assert forall|i: int| 0 <= i < fs.drop_first().len() implies !(
        #[trigger] fs.drop_first()[i].0.frame_type is Data) by {
            assert(fs.drop_first()[i] == fs[i + 1]);
        }
        lemma_data_bytes_none(fs.drop_first());
    }
}

proof fn lemma_data_bytes_all(fs: Seq<(Frame, Seq<u8>)>)
    requires
        forall|i: int| 0 <= i < fs.len() ==> (#[trigger] fs[i].0.frame_type is Data),
    ensures
        data_bytes(fs) == sum_lens(payloads(fs)),
    decreases fs.len(),
{
    if fs.len() > 0 {
        assert(fs[0].0.frame_type is Data);
        assert forall|i: int| 0 <= i < fs.drop_first().len() implies (
        #[trigger] fs.drop_first()[i].0.frame_type is Data) by {
            assert(fs.drop_first()[i] == fs[i + 1]);
        }
        lemma_data_bytes_all(fs.drop_first());
        assert(payloads(fs.drop_first()) =~= payloads(fs).drop_first());
    }
}

proof fn lemma_chunks(b: Seq<u8>, m: nat)
    requires
        m > 0,
    ensures
        sum_lens(chunks(b, m)) == b.len(),
        chunks(b, m).len() > 0,
        forall|i: int| 0 <= i < chunks(b, m).len() ==> #[trigger] chunks(b, m)[i].len() <= m,
    decreases b.len(),
{
    if b.len() <= m {
        assert(chunks(b, m) == seq![b]);
        assert(seq![b].drop_first() =~= Seq::<Seq<u8>>::empty());
        assert(sum_lens(Seq::<Seq<u8>>::empty()) == 0);
        assert(sum_lens(seq![b]) == b.len() + sum_lens(seq![b].drop_first()));
    } else {
        let rest = chunks(b.skip(m as int), m);
        lemma_chunks(b.skip(m as int), m);
        let c = chunks(b, m);
        assert(c == seq![b.take(m as int)] + rest);
        assert(c.drop_first() =~= rest);
        assert(sum_lens(c) == c[0].len() + sum_lens(c.drop_first()));
        assert(c[0].len() == m);
        assert forall|i: int| 0 <= i < c.len() implies #[trigger] c[i].len() <= m by {
            if i > 0 {
                assert(c[i] == rest[i - 1]);
            }
        }
    }
}

/// What one turn of sending writes: the body bytes it counts are exactly
/// those in its DATA frames, and no frame payload is larger than `m`.
proof fn lemma_send_once(o: SendView, s: u32, conn: int, m: nat)
    requires
        m > 0,
        conn >= 0,
    ensures
        data_bytes(send_once(o, s, conn, m).frames) == send_once(o, s, conn, m).sent,
        forall|i: int|
            0 <= i < send_once(o, s, conn, m).frames.len() ==> #[trigger] send_once(
                o,
                s,
                conn,
                m,
            ).frames[i].1.len() <= m,
{
    let res = send_once(o, s, conn, m);
    let hframes = match o.headers {
        HeadersView::ToWrite(b, cont) => header_frames(s, chunks(b, m), cont),
        _ => Seq::empty(),
    };
    match o.headers {
        HeadersView::ToWrite(b, cont) => {
            lemma_chunks(b, m);
        },
        _ => {},
    }
    assert forall|i: int| 0 <= i < hframes.len() implies !(#[trigger] hframes[i].0.frame_type is Data) by {
    }
    lemma_data_bytes_none(hframes);
    let budget = stream_budget(conn, o.capacity);
    let dframes = res.frames.skip(hframes.len() as int);
    assert(res.frames =~= hframes + dframes);
    lemma_data_bytes_add(hframes, dframes);
    match o.body {
        BodyView::Receiving(bytes) => {
            let sent = res.sent;
            if sent > 0 {
                lemma_chunks(bytes.take(sent), m);
                lemma_data_bytes_all(dframes);
                assert(payloads(dframes) =~= chunks(bytes.take(sent), m));
                assert(bytes.take(sent).len() == sent);
            } else {
                assert(dframes =~= Seq::<(Frame, Seq<u8>)>::empty());
            }
        },
        BodyView::Received(bytes) => {
            let sent = res.sent;
            if sent > 0 || res.ended {
                lemma_chunks(bytes.take(sent), m);
                lemma_data_bytes_all(dframes);
                assert(payloads(dframes) =~= chunks(bytes.take(sent), m));
                assert(bytes.take(sent).len() == sent);
            } else {
                assert(dframes =~= Seq::<(Frame, Seq<u8>)>::empty());
            }
        },
        BodyView::Sent => {
            assert(dframes =~= Seq::<(Frame, Seq<u8>)>::empty());
        },
    }
    assert forall|i: int| 0 <= i < res.frames.len() implies #[trigger] res.frames[i].1.len() <= m by {
        if i >= hframes.len() {
            assert(res.frames[i] == dframes[i - hframes.len()]);
        }
    }
}

/// The body bytes a list of frames carries, in order.
pub open spec fn data_payload(fs: Seq<(Frame, Seq<u8>)>) -> Seq<u8>
    decreases fs.len(),
{
    if fs.len() == 0 {
        Seq::empty()
    } else {
        (if fs[0].0.frame_type is Data {
            fs[0].1
        } else {
            Seq::empty()
        }) + data_payload(fs.drop_first())
    }
}

/// Pieces joined back together.
pub open spec fn concat(p: Seq<Seq<u8>>) -> Seq<u8>
    decreases p.len(),
{
    if p.len() == 0 {
        Seq::empty()
    } else {
        p[0] + concat(p.drop_first())
    }
}

proof fn lemma_concat_chunks(b: Seq<u8>, m: nat)
    requires
        m > 0,
    ensures
        concat(chunks(b, m)) == b,
    decreases b.len(),
{
    if b.len() <= m {
        assert(chunks(b, m) == seq![b]);
        assert(seq![b].drop_first() =~= Seq::<Seq<u8>>::empty());
        assert(concat(seq![b]) =~= b + concat(Seq::<Seq<u8>>::empty()));
        assert(b + Seq::<u8>::empty() =~= b);
    } else {
        lemma_concat_chunks(b.skip(m as int), m);
        let c = chunks(b, m);
        assert(c.drop_first() =~= chunks(b.skip(m as int), m));
        assert(b.take(m as int) + b.skip(m as int) =~= b);
    }
}

proof fn lemma_data_payload_add(a: Seq<(Frame, Seq<u8>)>, b: Seq<(Frame, Seq<u8>)>)
    ensures
        data_payload(a + b) == data_payload(a) + data_payload(b),
    decreases a.len(),
{
    if a.len() == 0 {
        assert(a + b =~= b);
        assert(Seq::<u8>::empty() + data_payload(b) =~= data_payload(b));
    } else {
        assert((a + b).drop_first() =~= a.drop_first() + b);
        lemma_data_payload_add(a.drop_first(), b);
        let h = if a[0].0.frame_type is Data { a[0].1 } else { Seq::<u8>::empty() };
        assert(h + (data_payload(a.drop_first()) + data_payload(b)) =~= (h + data_payload(
            a.drop_first(),
        )) + data_payload(b));
    }
}

proof fn lemma_data_payload_none(fs: Seq<(Frame, Seq<u8>)>)
    requires
        forall|i: int| 0 <= i < fs.len() ==> !(#[trigger] fs[i].0.frame_type is Data),
    ensures
        data_payload(fs) == Seq::<u8>::empty(),
    decreases fs.len(),
{
    if fs.len() > 0 {
        assert forall|i: int| 0 <= i < fs.drop_first().len() implies !(
        #[trigger] fs.drop_first()[i].0.frame_type is Data) by {
            assert(fs.drop_first()[i] == fs[i + 1]);
        }
        lemma_data_payload_none(fs.drop_first());
        assert(Seq::<u8>::empty() + Seq::<u8>::empty() =~= Seq::<u8>::empty());
    }
}

proof fn lemma_data_payload_frames(s: u32, p: Seq<Seq<u8>>, end: bool)
    ensures
        data_payload(data_frames(s, p, end)) == concat(p),
    decreases p.len(),
{
    if p.len() > 0 {
        assert(data_frames(s, p, end).drop_first() =~= data_frames(s, p.drop_first(), end));
        lemma_data_payload_frames(s, p.drop_first(), end);
    } else {
        assert(data_frames(s, p, end) =~= Seq::<(Frame, Seq<u8>)>::empty());
    }
}

/// What one turn of sending writes of a body is exactly its next bytes, in
/// order, and what stays queued is the rest; it never takes more than the
/// connection's window, nor more than a positive stream window.
pub proof fn law_send_writes_the_body_in_order(o: SendView, s: u32, conn: int, m: nat)
    requires
        m > 0,
        conn >= 0,
    ensures
        ({
            let res = send_once(o, s, conn, m);
            &&& 0 <= res.sent <= conn
            &&& res.sent > 0 ==> res.sent <= o.capacity
            &&& match o.body {
                BodyView::Receiving(b) => data_payload(res.frames) == b.take(res.sent)
                    && res.out.body == BodyView::Receiving(b.skip(res.sent)),
                BodyView::Received(b) => data_payload(res.frames) == b.take(res.sent) && (
                res.ended ==> res.sent == b.len()) && (!res.ended ==> res.out.body
                    == BodyView::Received(b.skip(res.sent))),
                BodyView::Sent => res.frames == match o.headers {
                    HeadersView::ToWrite(b, cont) => header_frames(s, chunks(b, m), cont),
                    _ => Seq::empty(),
                },
            }
        }),
{
    let res = send_once(o, s, conn, m);
    let hframes = match o.headers {
        HeadersView::ToWrite(b, cont) => header_frames(s, chunks(b, m), cont),
        _ => Seq::empty(),
    };
    assert forall|i: int| 0 <= i < hframes.len() implies !(#[trigger] hframes[i].0.frame_type is Data) by {
    }
    lemma_data_payload_none(hframes);
    let dframes = res.frames.skip(hframes.len() as int);
    assert(res.frames =~= hframes + dframes);
    lemma_data_payload_add(hframes, dframes);
    assert(Seq::<u8>::empty() + data_payload(dframes) =~= data_payload(dframes));
    match o.body {
        BodyView::Receiving(b) => {
            if res.sent > 0 {
                assert(dframes =~= data_frames(s, chunks(b.take(res.sent), m), false));
                lemma_data_payload_frames(s, chunks(b.take(res.sent), m), false);
                lemma_concat_chunks(b.take(res.sent), m);
            } else {
                assert(dframes =~= Seq::<(Frame, Seq<u8>)>::empty());
                assert(b.take(0) =~= Seq::<u8>::empty());
            }
        },
        BodyView::Received(b) => {
            if res.sent > 0 || res.ended {
                assert(dframes =~= data_frames(s, chunks(b.take(res.sent), m), res.ended));
                lemma_data_payload_frames(s, chunks(b.take(res.sent), m), res.ended);
                lemma_concat_chunks(b.take(res.sent), m);
            } else {
                assert(dframes =~= Seq::<(Frame, Seq<u8>)>::empty());
                assert(b.take(0) =~= Seq::<u8>::empty());
            }
        },
        BodyView::Sent => {
            assert(res.frames =~= hframes);
        },
    }
}

/// END_STREAM is written once, on the last frame of a turn, and only when a
/// finished body has no byte left.
pub proof fn law_end_stream_only_at_the_end(o: SendView, s: u32, conn: int, m: nat)
    requires
        m > 0,
        conn >= 0,
    ensures
        ({
            let res = send_once(o, s, conn, m);
            &&& forall|i: int|
                0 <= i < res.frames.len() && #[trigger] res.frames[i].0.frame_type == FrameType::Data(
                    BitFlags { bits: 0x01 },
                ) ==> i == res.frames.len() - 1 && res.ended
            &&& res.ended ==> (o.body matches BodyView::Received(b) && res.sent == b.len())
        }),
{
    let res = send_once(o, s, conn, m);
    let hframes = match o.headers {
        HeadersView::ToWrite(b, cont) => header_frames(s, chunks(b, m), cont),
        _ => Seq::empty(),
    };
    assert forall|i: int|
        0 <= i < res.frames.len() && #[trigger] res.frames[i].0.frame_type == FrameType::Data(
            BitFlags { bits: 0x01 },
        ) implies i == res.frames.len() - 1 && res.ended by {
        if i >= hframes.len() {
            let dframes = res.frames.skip(hframes.len() as int);
            assert(res.frames[i] == dframes[i - hframes.len()]);
        }
    }
}

/// The stream state changes that sending may cause (RFC 9113, 5.1): the end
/// of our body half closes an open stream (local) and closes a stream whose
/// remote side was closed; otherwise streams keep their state.
pub open spec fn send_transition(a: StreamState, b: StreamState) -> bool {
    match a {
        StreamState::Open { .. } => b is Open || b is HalfClosedLocal,
        StreamState::HalfClosedRemote { .. } => b is HalfClosedRemote,
        StreamState::HalfClosedLocal { .. } => b is HalfClosedLocal,
    }
}

/// A turn of sending never opens a stream, and moves the stream it sends on
/// only along the stream state machine: its state changes exactly when the
/// body is finished.
pub proof fn law_send_follows_stream_states(v: ConnView, v2: ConnView, s: u32, res: SendResult)
    requires
        v.streams.contains_key(s),
        outgoing_of(v.streams[s]) is Some,
        stream_sent(v, v2, s, res),
    ensures
        forall|id: u32| #[trigger]
            v2.streams.contains_key(id) ==> v.streams.contains_key(id) && send_transition(
                v.streams[id],
                v2.streams[id],
            ),
        res.ended ==> !v2.streams.contains_key(s) || v2.streams[s] is HalfClosedLocal,
        !res.ended ==> v2.streams.contains_key(s) && (v2.streams[s] is Open <==> v.streams[s] is Open),
{
}

impl ConnState {
    /// One turn of sending on stream `s`, which has data pending, with
    /// `conn` bytes of connection window and frames of at most `m` bytes.
    /// Returns the frames to write, the body bytes they carry, and whether
    /// the stream is still waiting for its response headers (then nothing
    /// changes).
    pub fn send_stream(&mut self, s: u32, conn: i64, m: usize) -> (r: (
        Vec<(Frame, Vec<u8>)>,
        i64,
        bool,
    ))
        requires
            old(self).wf(),
            old(self)@.pending.contains(s),
            conn == old(self)@.outgoing_capacity,
            0 < conn,
            m > 0,
        ensures
            final(self).wf(),
            ({
                let o = outgoing_of(old(self)@.streams[s])->Some_0;
                if o.headers is WaitingForHeaders {
                    r.2 && r.0@.len() == 0 && r.1 == 0 && final(self)@ == old(self)@
                } else {
                    let res = send_once(outgoing_view(o), s, conn as int, m as nat);
                    &&& !r.2
                    &&& frames_view(r.0@) == res.frames
                    &&& r.1 == res.sent
                    &&& stream_sent(old(self)@, final(self)@, s, res)
                }
            }),
    {
        let ghost v0 = self@;
        let st = match self.streams.remove(&s) {
            Some(st) => st,
            None => {
                return (Vec::new(), 0, true);
            },
        };
        let ghost st0 = st;
        let (incoming, outgoing) = match st {
            StreamState::Open { incoming, outgoing } => (Some(incoming), outgoing),
            StreamState::HalfClosedRemote { outgoing } => (None, outgoing),
            StreamState::HalfClosedLocal { incoming } => {
                self.streams.insert(s, StreamState::HalfClosedLocal { incoming });
                return (Vec::new(), 0, true);
            },
        };
        let ghost o0 = outgoing;
        let ghost res = send_once(outgoing_view(o0), s, conn as int, m as nat);
        if let HeadersOutgoing::WaitingForHeaders = outgoing.headers {
            let st = match incoming {
                Some(incoming) => StreamState::Open { incoming, outgoing },
                None => StreamState::HalfClosedRemote { outgoing },
            };
            self.streams.insert(s, st);
            proof {
                assert(self@.streams =~= v0.streams);
                assert(self@ =~= v0);
            }
            return (Vec::new(), 0, true);
        }
        let StreamOutgoing { headers, body, capacity } = outgoing;
        let mut frames: Vec<(Frame, Vec<u8>)> = match headers {
            HeadersOutgoing::WroteNone(b) => {
                let pcs = cut(&b, m);
                assert(pieces_view(pcs@) =~= chunks(b@, m as nat));
                make_header_frames(s, pcs, false)
            },
            HeadersOutgoing::WroteSome(b) => {
                let pcs = cut(&b, m);
                assert(pieces_view(pcs@) =~= chunks(b@, m as nat));
                make_header_frames(s, pcs, true)
            },
            _ => Vec::new(),
        };
        let ghost hframes = frames_view(frames@);
        assert(hframes == match outgoing_view(o0).headers {
            HeadersView::ToWrite(b, cont) => header_frames(s, chunks(b, m as nat), cont),
            _ => Seq::empty(),
        });
        let budget: i64 = if capacity < 0 {
            0
        } else if conn < capacity {
            conn
        } else {
            capacity
        };
        let (body2, sent, ended) = match body {
            BodyOutgoing::StillReceiving(mut q) => {
                let bytes = take_bytes(&mut q, budget as usize);
                let sent = bytes.len();
                if sent > 0 {
                    let pcs = cut(&bytes, m);
                    assert(pieces_view(pcs@) =~= chunks(bytes@, m as nat));
                    let mut d = make_data_frames(s, pcs, false);
                    let ghost f0 = frames@;
                    let ghost d0 = d@;
                    frames.append(&mut d);
                    proof {
                        lemma_frames_view_add(f0, d0);
                    }
                } else {
                    assert(frames_view(frames@) =~= hframes + Seq::<(Frame, Seq<u8>)>::empty());
                }
                (BodyOutgoing::StillReceiving(q), sent, false)
            },
            BodyOutgoing::DoneReceiving(mut q) => {
                let bytes = take_bytes(&mut q, budget as usize);
                let sent = bytes.len();
                let end = budget > 0 && !queue_has_bytes(&q);
                if sent > 0 || end {
                    let pcs = cut(&bytes, m);
                    assert(pieces_view(pcs@) =~= chunks(bytes@, m as nat));
                    let mut d = make_data_frames(s, pcs, end);
                    let ghost f0 = frames@;
                    let ghost d0 = d@;
                    frames.append(&mut d);
                    proof {
                        lemma_frames_view_add(f0, d0);
                    }
                } else {
                    assert(frames_view(frames@) =~= hframes + Seq::<(Frame, Seq<u8>)>::empty());
                }
                if end {
                    (BodyOutgoing::DoneSending, sent, true)
                } else {
                    (BodyOutgoing::DoneReceiving(q), sent, false)
                }
            },
            BodyOutgoing::DoneSending => (BodyOutgoing::DoneSending, 0, false),
        };
        assert(frames_view(frames@) == res.frames);
        assert(sent == res.sent);
        assert(ended == res.ended);
        assert(body_view(body2) == res.out.body);
        let sent = sent as i64;
        self.outgoing_capacity = self.outgoing_capacity - sent;
        let outgoing = StreamOutgoing {
            headers: HeadersOutgoing::WroteAll,
            body: body2,
            capacity: capacity - sent,
        };
        if ended {
            match incoming {
                Some(incoming) => {
                    self.streams.insert(s, StreamState::HalfClosedLocal { incoming });
                    self.remove_pending(s);
                    proof {
                        assert(self@ =~= (ConnView {
                            streams: v0.streams.insert(s, StreamState::HalfClosedLocal { incoming }),
                            pending: v0.pending.remove(s),
                            outgoing_capacity: self@.outgoing_capacity,
                            ..v0
                        }));
                    }
                },
                None => {
                    self.streams.insert(s, StreamState::HalfClosedRemote { outgoing });
                    let _ = self.remove_stream(s);
                    proof {
                        assert(self@ =~= (ConnView {
                            streams: v0.streams.remove(s),
                            pending: v0.pending.remove(s),
                            outgoing_capacity: self@.outgoing_capacity,
                            ..v0
                        }));
                    }
                },
            }
        } else {
            let ghost ov = outgoing_view(outgoing);
            assert(ov == res.out);
            let st = match incoming {
                Some(incoming) => StreamState::Open { incoming, outgoing },
                None => StreamState::HalfClosedRemote { outgoing },
            };
            self.streams.insert(s, st);
            proof {
                assert(self@ =~= (ConnView {
                    streams: v0.streams.insert(s, self@.streams[s]),
                    outgoing_capacity: self@.outgoing_capacity,
                    ..v0
                }));
                assert(same_but_outgoing(st0, self@.streams[s], res.out));
            }
        }
        (frames, sent, false)
    }

    /// Writes what the pending streams can send now, stream after stream in
    /// the order they became pending, while the connection window allows:
    /// each stream's turn is `send_stream`. Streams still waiting for their
    /// response headers are no longer pending afterwards. The frames are
    /// returned in the order to write them.
    pub fn send_data_maybe(&mut self) -> (r: Vec<(Frame, Vec<u8>)>)
        requires
            old(self).wf(),
        ensures
            final(self).wf(),
            old(self)@.outgoing_capacity - final(self)@.outgoing_capacity == data_bytes(
                frames_view(r@),
            ),
            forall|i: int|
                0 <= i < r@.len() ==> #[trigger] r@[i].1@.len()
                    <= old(self)@.peer_settings.max_frame_size,
            final(self)@.pending.subset_of(old(self)@.pending),
            final(self)@.peer_settings == old(self)@.peer_settings,
            final(self)@.self_settings == old(self)@.self_settings,
            final(self)@.last_stream_id == old(self)@.last_stream_id,
            final(self)@.incoming_capacity == old(self)@.incoming_capacity,
            final(self)@.goaway_recv == old(self)@.goaway_recv,
            exists|vs: Seq<ConnView>, fss: Seq<Seq<(Frame, Seq<u8>)>>, ws: Seq<Set<u32>>|
                #[trigger] send_trace(
                    old(self)@,
                    old(self).streams_with_pending_data@,
                    old(self)@.peer_settings.max_frame_size as nat,
                    vs,
                    fss,
                    ws,
                ) && frames_view(r@) == fss.last() && final(self)@ == (ConnView {
                    pending: vs.last().pending.difference(ws.last()),
                    ..vs.last()
                }),
    {
        let m = self.peer_settings.max_frame_size as usize;
        let ghost v0 = self@;
        let ghost v0_ids = self.streams_with_pending_data@;
        let mut ids: Vec<u32> = Vec::new();
        let mut j: usize = 0;
        while j < self.streams_with_pending_data.len()
            invariant
                j <= self.streams_with_pending_data@.len(),
                ids@ == self.streams_with_pending_data@.subrange(0, j as int),
            decreases self.streams_with_pending_data@.len() - j,
        {
            ids.push(self.streams_with_pending_data[j]);
            j = j + 1;
            assert(ids@ =~= self.streams_with_pending_data@.subrange(0, j as int));
        }
        assert(ids@ =~= v0_ids);
        let mut frames: Vec<(Frame, Vec<u8>)> = Vec::new();
        let mut waiting: Vec<u32> = Vec::new();
        let mut k: usize = 0;
        proof {
            assert(ids@.take(0) =~= Seq::<u32>::empty());
            assert(frames_view(frames@) =~= Seq::<(Frame, Seq<u8>)>::empty());
            assert(waiting@.to_set() =~= Set::<u32>::empty());
        }
        let ghost mut vs: Seq<ConnView> = seq![v0];
        let ghost mut fss: Seq<Seq<(Frame, Seq<u8>)>> = seq![Seq::<(Frame, Seq<u8>)>::empty()];
        let ghost mut ws: Seq<Set<u32>> = seq![Set::<u32>::empty()];
        while k < ids.len()
            invariant
                k <= ids@.len(),
                send_trace(v0, ids@.take(k as int), m as nat, vs, fss, ws),
                vs.last() == self@,
                fss.last() == frames_view(frames@),
                ws.last() == waiting@.to_set(),
                ids@ == v0_ids,
                m == v0.peer_settings.max_frame_size,
                self.wf(),
                m == v0.peer_settings.max_frame_size,
                m > 0,
                k <= ids@.len(),
                v0.outgoing_capacity - self@.outgoing_capacity == data_bytes(frames_view(frames@)),
                forall|i: int| 0 <= i < frames@.len() ==> #[trigger] frames@[i].1@.len() <= m,
                self@.pending.subset_of(v0.pending),
                self@.peer_settings == v0.peer_settings,
                self@.self_settings == v0.self_settings,
                self@.last_stream_id == v0.last_stream_id,
                self@.incoming_capacity == v0.incoming_capacity,
                self@.goaway_recv == v0.goaway_recv,
            ensures
                k < ids@.len() ==> self@.outgoing_capacity <= 0,
            decreases ids@.len() - k,
        {
            if self.outgoing_capacity <= 0 {
                break;
            }
            let ghost pre = self@;
            let ghost fpre = frames_view(frames@);
            let ghost wpre = waiting@.to_set();
            let id = ids[k];
            if vec_contains(&self.streams_with_pending_data, id) {
                let ghost before = self@;
                let ghost f0 = frames@;
                let (mut fs, _sent, wait) = self.send_stream(id, self.outgoing_capacity, m);
                proof {
                    let o = outgoing_of(before.streams[id])->Some_0;
                    if !(o.headers is WaitingForHeaders) {
                        lemma_send_once(outgoing_view(o), id, before.outgoing_capacity as int, m as nat);
                    }
                }
                if wait {
                    let ghost wv = waiting@;
                    waiting.push(id);
                    proof {
                        lemma_to_set_push(wv, id);
                    }
                } else {
                    let ghost fs0 = fs@;
                    frames.append(&mut fs);
                    proof {
                        lemma_frames_view_add(f0, fs0);
                        lemma_data_bytes_add(frames_view(f0), frames_view(fs0));
                        assert forall|i: int| 0 <= i < frames@.len() implies #[trigger] frames@[i].1@.len() <= m by {
                            if i >= f0.len() {
                                assert(frames@[i] == fs0[i - f0.len()]);
                                assert(frames_view(fs0)[i - f0.len()].1 == fs0[i - f0.len()].1@);
                            }
                        }
                    }
                }
            }
            proof {
                assert(send_step(pre, ids@[k as int], m as nat, fpre, wpre, frames_view(frames@), self@, waiting@.to_set()));
                let vs2 = vs.push(self@);
                let fss2 = fss.push(frames_view(frames@));
                let ws2 = ws.push(waiting@.to_set());
                let t = ids@.take(k + 1);
                assert forall|i: int| 0 <= i < t.len() implies send_step(
                    vs2[i],
                    #[trigger] t[i],
                    m as nat,
                    fss2[i],
                    ws2[i],
                    fss2[i + 1],
                    vs2[i + 1],
                    ws2[i + 1],
                ) by {
                    if i < k {
                        assert(t[i] == ids@.take(k as int)[i]);
                    }
                }
                vs = vs2;
                fss = fss2;
                ws = ws2;
            }
            k = k + 1;
        }
        proof {
            if k == ids@.len() {
                assert(ids@.take(k as int) =~= ids@);
            } else {
                let r = lemma_send_trace_rest(v0, ids@, k as int, m as nat, vs, fss, ws);
                vs = r.0;
                fss = r.1;
                ws = r.2;
            }
        }
        let ghost v_end = self@;
        let ghost w_end = waiting@.to_set();
        let ghost f_end = frames_view(frames@);
        let mut w: usize = 0;
        proof {
            assert(waiting@.take(0).to_set() =~= Set::<u32>::empty());
            assert(v_end.pending.difference(Set::<u32>::empty()) =~= v_end.pending);
            assert(self@ =~= (ConnView { pending: v_end.pending.difference(waiting@.take(0).to_set()), ..v_end }));
        }
        while w < waiting.len()
            invariant
                self.streams_with_pending_data@.no_duplicates(),
                conn_view_wf_no_pending(self@),
                forall|id: u32| #[trigger] self@.streams.contains_key(id) <==> self.stream_ids@.contains(id),
                self.stream_ids@.no_duplicates(),
                self.stream_ids@.len() < usize::MAX,
                self@.pending.subset_of(v0.pending),
                forall|id: u32| #[trigger] self@.pending.contains(id) ==> self@.streams.contains_key(id)
                    && self@.streams[id].outgoing_capacity_spec() is Some,
                v0.outgoing_capacity - self@.outgoing_capacity == data_bytes(frames_view(frames@)),
                self@.peer_settings == v0.peer_settings,
                self@.self_settings == v0.self_settings,
                self@.last_stream_id == v0.last_stream_id,
                self@.incoming_capacity == v0.incoming_capacity,
                self@.goaway_recv == v0.goaway_recv,
                w <= waiting@.len(),
                self@ == (ConnView { pending: v_end.pending.difference(waiting@.take(w as int).to_set()), ..v_end }),
            decreases waiting@.len() - w,
        {
            let ghost before = waiting@.take(w as int).to_set();
            self.remove_pending(waiting[w]);
            proof {
                assert(waiting@.take(w + 1).to_set() =~= before.insert(waiting@[w as int])) by {
                    assert(waiting@.take(w + 1) =~= waiting@.take(w as int).push(waiting@[w as int]));
                    lemma_to_set_push(waiting@.take(w as int), waiting@[w as int]);
                }
                assert(v_end.pending.difference(before).remove(waiting@[w as int]) =~= v_end.pending.difference(
                    before.insert(waiting@[w as int]),
                ));
            }
            w = w + 1;
        }
        proof {
            assert(waiting@.take(w as int) =~= waiting@);
            assert(send_trace(v0, v0_ids, m as nat, vs, fss, ws));
        }
        frames
    }

    /// The response headers of stream `s` were encoded into `block`. Once a
    /// stream can no longer send (closed, or our side finished), the event is
    /// ignored. Otherwise the block is queued, the stream has data pending,
    /// and sending is worth a try when both windows have room.
    pub fn on_response_headers(&mut self, s: u32, block: Vec<u8>) -> (r: Vec<H2Action>)
        requires
            old(self).wf(),
            old(self)@.streams.contains_key(s) && outgoing_of(old(self)@.streams[s]) is Some
                ==> outgoing_of(old(self)@.streams[s])->Some_0.body is StillReceiving,
        ensures
            final(self).wf(),
            ({
                let v = old(self)@;
                if v.streams.contains_key(s) && outgoing_of(v.streams[s]) is Some {
                    let o = outgoing_view(outgoing_of(v.streams[s])->Some_0);
                    &&& final(self)@ == (ConnView {
                        streams: v.streams.insert(s, final(self)@.streams[s]),
                        pending: v.pending.insert(s),
                        ..v
                    })
                    &&& same_but_outgoing(
                        v.streams[s],
                        final(self)@.streams[s],
                        SendView { headers: HeadersView::ToWrite(block@, false), ..o },
                    )
                    &&& r@ == if v.outgoing_capacity > 0 && o.capacity > 0 {
                        seq![H2Action::NotifySendData]
                    } else {
                        Seq::<H2Action>::empty()
                    }
                } else {
                    final(self)@ == v && r@.len() == 0
                }
            }),
    {
        let ghost v0 = self@;
        let st = match self.streams.remove(&s) {
            None => {
                return Vec::new();
            },
            Some(st) => st,
        };
        let ghost st0 = st;
        let (incoming, outgoing) = match st {
            StreamState::Open { incoming, outgoing } => (Some(incoming), outgoing),
            StreamState::HalfClosedRemote { outgoing } => (None, outgoing),
            StreamState::HalfClosedLocal { incoming } => {
                self.streams.insert(s, StreamState::HalfClosedLocal { incoming });
                proof {
                    assert(self@.streams =~= v0.streams);
                    assert(self@ =~= v0);
                }
                return Vec::new();
            },
        };
        let cap = outgoing.capacity;
        let ghost o_before = outgoing_view(outgoing);
        let outgoing = StreamOutgoing { headers: HeadersOutgoing::WroteNone(block), ..outgoing };
        let st = match incoming {
            Some(incoming) => StreamState::Open { incoming, outgoing },
            None => StreamState::HalfClosedRemote { outgoing },
        };
        self.streams.insert(s, st);
        self.add_pending(s);
        proof {
            assert(self@ =~= (ConnView {
                streams: v0.streams.insert(s, self@.streams[s]),
                pending: v0.pending.insert(s),
                ..v0
            }));
        }
        let mut acts = Vec::new();
        if self.outgoing_capacity > 0 && cap > 0 {
            acts.push(H2Action::NotifySendData);
        }
        proof {
            assert(acts@ =~= if v0.outgoing_capacity > 0 && o_before.capacity > 0 {
                seq![H2Action::NotifySendData]
            } else {
                Seq::<H2Action>::empty()
            });
        }
        acts
    }

    /// A chunk of the response body of stream `s`. Once a stream can no
    /// longer send, the chunk is dropped. Otherwise it is queued after the
    /// body bytes already there, the stream has data pending, and sending is
    /// worth a try when both windows have room.
    pub fn on_body_chunk(&mut self, s: u32, chunk: Vec<u8>) -> (r: Vec<H2Action>)
        requires
            old(self).wf(),
        ensures
            final(self).wf(),
            ({
                let v = old(self)@;
                if v.streams.contains_key(s) && outgoing_of(v.streams[s]) is Some {
                    let o = outgoing_view(outgoing_of(v.streams[s])->Some_0);
                    &&& final(self)@ == (ConnView {
                        streams: v.streams.insert(s, final(self)@.streams[s]),
                        pending: v.pending.insert(s),
                        ..v
                    })
                    &&& same_but_outgoing(
                        v.streams[s],
                        final(self)@.streams[s],
                        SendView {
                            body: match o.body {
                                BodyView::Receiving(b) => BodyView::Receiving(b + chunk@),
                                BodyView::Received(b) => BodyView::Received(b + chunk@),
                                BodyView::Sent => BodyView::Sent,
                            },
                            ..o
                        },
                    )
                    &&& r@ == if v.outgoing_capacity > 0 && o.capacity > 0 {
                        seq![H2Action::NotifySendData]
                    } else {
                        Seq::<H2Action>::empty()
                    }
                } else {
                    final(self)@ == v && r@.len() == 0
                }
            }),
    {
        let ghost v0 = self@;
        let st = match self.streams.remove(&s) {
            None => {
                return Vec::new();
            },
            Some(st) => st,
        };
        let (incoming, outgoing) = match st {
            StreamState::Open { incoming, outgoing } => (Some(incoming), outgoing),
            StreamState::HalfClosedRemote { outgoing } => (None, outgoing),
            StreamState::HalfClosedLocal { incoming } => {
                self.streams.insert(s, StreamState::HalfClosedLocal { incoming });
                proof {
                    assert(self@.streams =~= v0.streams);
                    assert(self@ =~= v0);
                }
                return Vec::new();
            },
        };
        let cap = outgoing.capacity;
        let ghost o_before = outgoing_view(outgoing);
        let StreamOutgoing { headers, body, capacity } = outgoing;
        let body = match body {
            BodyOutgoing::StillReceiving(mut q) => {
                let ghost q0 = q@;
                q.push_back(chunk);
                proof {
                    assert(q@.drop_last() =~= q0);
                }
                BodyOutgoing::StillReceiving(q)
            },
            BodyOutgoing::DoneReceiving(mut q) => {
                let ghost q0 = q@;
                q.push_back(chunk);
                proof {
                    assert(q@.drop_last() =~= q0);
                }
                BodyOutgoing::DoneReceiving(q)
            },
            BodyOutgoing::DoneSending => BodyOutgoing::DoneSending,
        };
        let outgoing = StreamOutgoing { headers, body, capacity };
        let st = match incoming {
            Some(incoming) => StreamState::Open { incoming, outgoing },
            None => StreamState::HalfClosedRemote { outgoing },
        };
        self.streams.insert(s, st);
        self.add_pending(s);
        proof {
            assert(self@ =~= (ConnView {
                streams: v0.streams.insert(s, self@.streams[s]),
                pending: v0.pending.insert(s),
                ..v0
            }));
        }
        let mut acts = Vec::new();
        if self.outgoing_capacity > 0 && cap > 0 {
            acts.push(H2Action::NotifySendData);
        }
        proof {
            assert(acts@ =~= if v0.outgoing_capacity > 0 && o_before.capacity > 0 {
                seq![H2Action::NotifySendData]
            } else {
                Seq::<H2Action>::empty()
            });
        }
        acts
    }

    /// The response body of stream `s` is complete. Once a stream can no
    /// longer send, the event is ignored. Otherwise the queued bytes are the
    /// last ones; with none queued, sending is worth a try (to send
    /// END_STREAM alone).
    pub fn on_body_end(&mut self, s: u32) -> (r: Vec<H2Action>)
        requires
            old(self).wf(),
            old(self)@.streams.contains_key(s) && outgoing_of(old(self)@.streams[s]) is Some
                ==> outgoing_of(old(self)@.streams[s])->Some_0.body is StillReceiving,
        ensures
            final(self).wf(),
            ({
                let v = old(self)@;
                if v.streams.contains_key(s) && outgoing_of(v.streams[s]) is Some {
                    let og = outgoing_of(v.streams[s])->Some_0;
                    let o = outgoing_view(og);
                    &&& final(self)@ == (ConnView {
                        streams: v.streams.insert(s, final(self)@.streams[s]),
                        ..v
                    })
                    &&& same_but_outgoing(
                        v.streams[s],
                        final(self)@.streams[s],
                        SendView {
                            body: BodyView::Received(
                                match o.body {
                                    BodyView::Receiving(b) => b,
                                    _ => Seq::empty(),
                                },
                            ),
                            ..o
                        },
                    )
                    &&& r@ == if og.body matches BodyOutgoing::StillReceiving(q) && q@.len() == 0 {
                        seq![H2Action::NotifySendData]
                    } else {
                        Seq::<H2Action>::empty()
                    }
                } else {
                    final(self)@ == v && r@.len() == 0
                }
            }),
    {
        let ghost v0 = self@;
        let st = match self.streams.remove(&s) {
            None => {
                return Vec::new();
            },
            Some(st) => st,
        };
        let (incoming, outgoing) = match st {
            StreamState::Open { incoming, outgoing } => (Some(incoming), outgoing),
            StreamState::HalfClosedRemote { outgoing } => (None, outgoing),
            StreamState::HalfClosedLocal { incoming } => {
                self.streams.insert(s, StreamState::HalfClosedLocal { incoming });
                proof {
                    assert(self@.streams =~= v0.streams);
                    assert(self@ =~= v0);
                }
                return Vec::new();
            },
        };
        let StreamOutgoing { headers, body, capacity } = outgoing;
        let mut acts = Vec::new();
        let body = match body {
            BodyOutgoing::StillReceiving(q) => {
                if q.len() == 0 {
                    acts.push(H2Action::NotifySendData);
                }
                BodyOutgoing::DoneReceiving(q)
            },
            other => other,
        };
        let outgoing = StreamOutgoing { headers, body, capacity };
        let st = match incoming {
            Some(incoming) => StreamState::Open { incoming, outgoing },
            None => StreamState::HalfClosedRemote { outgoing },
        };
        self.streams.insert(s, st);
        proof {
            assert(self@ =~= (ConnView { streams: v0.streams.insert(s, self@.streams[s]), ..v0 }));
        }
        acts
    }

    /// The response head of stream `s`: its header block is encoded with
    /// the codec as it is (see `response_block`) and queued as
    /// `on_response_headers` does.
    pub fn respond(
        &mut self,
        codec: &mut HpackCodec,
        s: u32,
        status: u16,
        headers: &Vec<(Vec<u8>, Vec<u8>)>,
    ) -> (r: Vec<H2Action>)
        requires
            old(self).wf(),
            100 <= status <= 999,
            old(self)@.streams.contains_key(s) && outgoing_of(old(self)@.streams[s]) is Some
                ==> outgoing_of(old(self)@.streams[s])->Some_0.body is StillReceiving,
        ensures
            final(self).wf(),
            ({
                let v = old(self)@;
                if v.streams.contains_key(s) && outgoing_of(v.streams[s]) is Some {
                    let o = outgoing_view(outgoing_of(v.streams[s])->Some_0);
                    let h = headers_view(outgoing_of(final(self)@.streams[s])->Some_0.headers);
                    &&& final(self)@ == (ConnView {
                        streams: v.streams.insert(s, final(self)@.streams[s]),
                        pending: v.pending.insert(s),
                        ..v
                    })
                    &&& h matches HeadersView::ToWrite(b, false) && b.len() > 0 && b
                        == response_block(*old(codec), status, headers@)
                    &&& same_but_outgoing(
                        v.streams[s],
                        final(self)@.streams[s],
                        SendView { headers: h, ..o },
                    )
                    &&& r@ == if v.outgoing_capacity > 0 && o.capacity > 0 {
                        seq![H2Action::NotifySendData]
                    } else {
                        Seq::<H2Action>::empty()
                    }
                } else {
                    final(self)@ == v && r@.len() == 0
                }
            }),
            encoder_table(final(codec).enc) == hpack_encoding(
                encoder_table(old(codec).enc),
                encoder_limit(old(codec).enc),
                response_fields(status, pairs_view(headers@)),
            ).1,
            encoder_limit(final(codec).enc) == encoder_limit(old(codec).enc),
            final(codec).dec == old(codec).dec,
    {
        let block = codec.encode_response(status, headers);
        self.on_response_headers(s, block)
    }
}

} // verus!
