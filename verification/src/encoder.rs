//! The handler's side of a stream: the responder checks each step of the
//! response it writes and says which encoder call performs it; the HTTP/2
//! encoder turns responses into events for the connection; the request body
//! the handler reads comes from the connection.
use vstd::prelude::*;

use crate::frame::StreamId;
use crate::http1::is_informational;
use crate::driver::{continue_value, expects_continue, first_expect, same};
use crate::roll::{find_substring, occurs_at};
use crate::headers::pairs_view;
use crate::types::{
    check_final_status, check_interim_status, with_content_length, with_content_length_spec,
    ExpectResponseBody, ExpectResponseHeaders, ResponseDone, ResponseState, ResponseStatusError,
};

verus! {

/// Where a response is.
#[derive(Debug, Clone, Copy, PartialEq, Eq, Structural)]
pub enum EncoderState {
    ExpectResponseHeaders,
    ExpectResponseBody,
    ResponseDone,
}

/// What the handler of a stream tells the connection.
#[derive(Debug, Clone, Copy, PartialEq, Eq, Structural)]
pub enum H2EventPayload {
    /// the response head, with this status code
    Headers { status: u16 },
    /// a chunk of the response body
    BodyChunk,
    /// the response body is complete
    BodyEnd,
}

/// An event for the connection, about one stream.
#[derive(Debug, Clone, Copy, PartialEq, Eq, Structural)]
pub struct H2Event {
    pub stream_id: StreamId,
    pub payload: H2EventPayload,
}

/// Encodes HTTP/2 responses and bodies as events for the connection.
#[derive(Debug, Clone, Copy, PartialEq, Eq, Structural)]
pub struct H2Encoder {
    pub stream_id: StreamId,
    pub state: EncoderState,
}

impl H2Encoder {
    /// An encoder for a stream whose response was not started.
    pub fn new(stream_id: StreamId) -> (r: H2Encoder)
        ensures
            r.stream_id == stream_id,
            r.state == EncoderState::ExpectResponseHeaders,
    {
        H2Encoder { stream_id, state: EncoderState::ExpectResponseHeaders }
    }

    /// An event about this encoder's stream.
    pub fn event(&self, payload: H2EventPayload) -> (r: H2Event)
        ensures
            r == (H2Event { stream_id: self.stream_id, payload }),
    {
        H2Event { stream_id: self.stream_id, payload }
    }

    /// The response head; HTTP/2 has no informational responses here, and a
    /// head comes once.
    pub fn write_response(&mut self, status: u16) -> (r: H2Event)
        requires
            !is_informational(status),
            old(self).state == EncoderState::ExpectResponseHeaders,
        ensures
            r == (H2Event { stream_id: old(self).stream_id, payload: H2EventPayload::Headers { status } }),
            final(self).state == EncoderState::ExpectResponseBody,
            final(self).stream_id == old(self).stream_id,
    {
        let ev = self.event(H2EventPayload::Headers { status });
        self.state = EncoderState::ExpectResponseBody;
        ev
    }

    /// A chunk of the body, after the head.
    pub fn write_body_chunk(&self) -> (r: H2Event)
        requires
            self.state == EncoderState::ExpectResponseBody,
        ensures
            r == (H2Event { stream_id: self.stream_id, payload: H2EventPayload::BodyChunk }),
    {
        self.event(H2EventPayload::BodyChunk)
    }

    /// The end of the body.
    pub fn write_body_end(&mut self) -> (r: H2Event)
        requires
            old(self).state == EncoderState::ExpectResponseBody,
        ensures
            r == (H2Event { stream_id: old(self).stream_id, payload: H2EventPayload::BodyEnd }),
            final(self).state == EncoderState::ResponseDone,
            final(self).stream_id == old(self).stream_id,
    {
        let ev = self.event(H2EventPayload::BodyEnd);
        self.state = EncoderState::ResponseDone;
        ev
    }

    /// What the connection must still be told when the handler gives the
    /// stream up: without a head, a 500 response with an empty body; without
    /// the end of the body, that end.
    pub fn drop_events(&self) -> (r: Vec<H2Event>)
        ensures
            self.state == EncoderState::ExpectResponseHeaders ==> r@ == seq![
                H2Event { stream_id: self.stream_id, payload: H2EventPayload::Headers { status: 500 } },
                H2Event { stream_id: self.stream_id, payload: H2EventPayload::BodyEnd },
            ],
            self.state == EncoderState::ExpectResponseBody ==> r@ == seq![
                H2Event { stream_id: self.stream_id, payload: H2EventPayload::BodyEnd },
            ],
            self.state == EncoderState::ResponseDone ==> r@.len() == 0,
    {
        let mut evs = Vec::new();
        match self.state {
            EncoderState::ExpectResponseHeaders => {
                evs.push(self.event(H2EventPayload::Headers { status: 500 }));
                evs.push(self.event(H2EventPayload::BodyEnd));
            },
            EncoderState::ExpectResponseBody => {
                evs.push(self.event(H2EventPayload::BodyEnd));
            },
            EncoderState::ResponseDone => {},
        }
        evs
    }
}

/// A call the responder makes on the encoder of its connection; the caller
/// performs it on that encoder.
#[derive(Debug, Clone, PartialEq, Eq)]
pub enum EncoderCall {
    /// a response head (interim or final) with this status
    WriteResponse { status: u16 },
    /// a chunk of the response body
    WriteBodyChunk(Vec<u8>),
    /// the end of the response body
    WriteBodyEnd,
    /// the trailers, after the end of the body
    WriteTrailers(Vec<(Vec<u8>, Vec<u8>)>),
}

/// A response being written, in one of its states, with what the request
/// and the response head announced.
pub struct Responder<S: ResponseState> {
    pub state: S,
    /// the client sent `expect: 100-continue` and no `100 Continue` went out
    pub continue_pending: bool,
    /// the client announced that it accepts trailers
    pub trailers_accepted: bool,
    /// the final status, once written
    pub status: u16,
    /// the `content-length` the response head announced
    pub announced_length: Option<u64>,
    /// the body is sent with chunked transfer coding
    pub chunked: bool,
    /// the trailer names the response head announced
    pub trailer_names: Vec<Vec<u8>>,
    /// how many body bytes were written
    pub written: u64,
}

/// Every trailer's name is among the announced names.
pub open spec fn trailers_announced(t: Seq<(Seq<u8>, Seq<u8>)>, names: Seq<Seq<u8>>) -> bool {
    forall|i: int| 0 <= i < t.len() ==> #[trigger] names.contains(t[i].0)
}

/// Whether trailers may be sent after a response: the client accepts them,
/// the body is chunked, the status allows a body, and each was announced.
pub open spec fn trailers_allowed(
    t: Seq<(Seq<u8>, Seq<u8>)>,
    accepted: bool,
    status: u16,
    chunked: bool,
    names: Seq<Seq<u8>>,
) -> bool {
    &&& accepted
    &&& chunked
    &&& status != 204 && status != 205 && status != 304
    &&& trailers_announced(t, names)
}

fn name_listed(names: &Vec<Vec<u8>>, n: &Vec<u8>) -> (r: bool)
    ensures
        r == names_view(names@).contains(n@),
{
    let mut k: usize = 0;
    while k < names.len()
        invariant
            k <= names@.len(),
            forall|j: int| 0 <= j < k ==> names@[j]@ != n@,
        decreases names@.len() - k,
    {
        if same(names[k].as_slice(), n.as_slice()) {
            assert(names_view(names@)[k as int] == n@);
            return true;
        }
        k = k + 1;
    }
    proof {
        if names_view(names@).contains(n@) {
            let j = choose|j: int| 0 <= j < names_view(names@).len() && names_view(names@)[j] == n@;
            assert(names@[j]@ == n@);
        }
    }
    false
}

/// The byte strings that a list of names holds.
pub open spec fn names_view(names: Seq<Vec<u8>>) -> Seq<Seq<u8>> {
    names.map_values(|v: Vec<u8>| v@)
}

fn all_listed(t: &Vec<(Vec<u8>, Vec<u8>)>, names: &Vec<Vec<u8>>) -> (r: bool)
    ensures
        r == trailers_announced(pairs_view(t@), names_view(names@)),
{
    let mut k: usize = 0;
    while k < t.len()
        invariant
            k <= t@.len(),
            forall|j: int| 0 <= j < k ==> #[trigger] names_view(names@).contains(pairs_view(t@)[j].0),
        decreases t@.len() - k,
    {
        if !name_listed(names, &t[k].0) {
            assert(pairs_view(t@)[k as int].0 == t@[k as int].0@);
            return false;
        }
        assert(pairs_view(t@)[k as int].0 == t@[k as int].0@);
        k = k + 1;
    }
    true
}

/// How many bytes the chunks hold together.
pub open spec fn chunks_len(cs: Seq<Vec<u8>>) -> int
    decreases cs.len(),
{
    if cs.len() == 0 {
        0
    } else {
        chunks_len(cs.drop_last()) + cs.last()@.len()
    }
}

/// The calls that write each chunk, in order.
pub open spec fn chunk_calls(cs: Seq<Vec<u8>>) -> Seq<EncoderCall> {
    cs.map_values(|c: Vec<u8>| EncoderCall::WriteBodyChunk(c))
}

/// What ends a body: its end, then the trailers if any.
pub open spec fn end_calls(trailers: Option<Vec<(Vec<u8>, Vec<u8>)>>) -> Seq<EncoderCall> {
    match trailers {
        Some(t) => seq![EncoderCall::WriteBodyEnd, EncoderCall::WriteTrailers(t)],
        None => seq![EncoderCall::WriteBodyEnd],
    }
}

/// What writing a whole response with a body of `total` bytes (`len` when
/// known, in which case it is announced, else the body is chunked) comes to:
/// the first step that is refused, or success.
pub open spec fn with_body_outcome(
    continue_pending: bool,
    trailers_accepted: bool,
    status: u16,
    len: Option<u64>,
    total: int,
    trailers: Option<Seq<(Seq<u8>, Seq<u8>)>>,
) -> Result<(), ResponseStatusError> {
    if is_informational(status) {
        Err(ResponseStatusError::FinalIsInformational)
    } else if continue_pending {
        Err(ResponseStatusError::ContinuePending)
    } else if len matches Some(n) && total > n {
        Err(ResponseStatusError::BeyondContentLength)
    } else if len matches Some(n) && total != n {
        Err(ResponseStatusError::LengthMismatch)
    } else if trailers matches Some(t) && !trailers_allowed(
        t,
        trailers_accepted,
        status,
        len is None,
        Seq::empty(),
    ) {
        Err(ResponseStatusError::TrailersNotAllowed)
    } else {
        Ok(())
    }
}

/// The bytes `te`.
pub open spec fn te_name() -> Seq<u8> {
    seq![0x74u8, 0x65]
}

/// The bytes `trailers`.
pub open spec fn trailers_word() -> Seq<u8> {
    seq![0x74u8, 0x72, 0x61, 0x69, 0x6c, 0x65, 0x72, 0x73]
}

/// The client announced that it accepts trailers: a `te` header mentions
/// `trailers`.
pub open spec fn accepts_trailers(hs: Seq<(Seq<u8>, Seq<u8>)>) -> bool {
    exists|i: int| 0 <= i < hs.len() && #[trigger] hs[i].0 == te_name() && mentions(
        hs[i].1,
        trailers_word(),
    )
}

/// `w` occurs somewhere in `v`.
pub open spec fn mentions(v: Seq<u8>, w: Seq<u8>) -> bool {
    exists|j: int| occurs_at(v, w, j)
}

fn mentions_word(v: &[u8], w: &[u8]) -> (r: bool)
    ensures
        r == mentions(v@, w@),
{
    match find_substring(v, w) {
        Some(at) => {
            assert(occurs_at(v@, w@, at as int));
            true
        },
        None => false,
    }
}

fn te_says_trailers(headers: &Vec<(Vec<u8>, Vec<u8>)>) -> (r: bool)
    ensures
        r == accepts_trailers(pairs_view(headers@)),
{
    let name: [u8; 2] = [0x74, 0x65];
    let word: [u8; 8] = [0x74, 0x72, 0x61, 0x69, 0x6c, 0x65, 0x72, 0x73];
    assert(name@ =~= te_name());
    assert(word@ =~= trailers_word());
    let mut k: usize = 0;
    while k < headers.len()
        invariant
            k <= headers@.len(),
            name@ == te_name(),
            word@ == trailers_word(),
            forall|i: int| 0 <= i < k && #[trigger] pairs_view(headers@)[i].0 == te_name()
                ==> !mentions(pairs_view(headers@)[i].1, trailers_word()),
        decreases headers@.len() - k,
    {
        let ghost hk = pairs_view(headers@)[k as int];
        assert(hk == (headers@[k as int].0@, headers@[k as int].1@));
        if same(headers[k].0.as_slice(), name.as_slice()) && mentions_word(
            headers[k].1.as_slice(),
            word.as_slice(),
        ) {
            assert(hk.0 == te_name() && mentions(hk.1, trailers_word()));
            return true;
        }
        k = k + 1;
    }
    false
}

impl Responder<ExpectResponseHeaders> {
    /// A responder for a request: `continue_expected` when the client sent
    /// `expect: 100-continue`, `trailers_accepted` when it announced that it
    /// accepts trailers.
    pub fn new(continue_expected: bool, trailers_accepted: bool) -> (r: Responder<
        ExpectResponseHeaders,
    >)
        ensures
            r.continue_pending == continue_expected,
            r.trailers_accepted == trailers_accepted,
            r.written == 0,
    {
        Responder {
            state: ExpectResponseHeaders,
            continue_pending: continue_expected,
            trailers_accepted,
            status: 0,
            announced_length: None,
            chunked: false,
            trailer_names: Vec::new(),
            written: 0,
        }
    }

    /// A responder for a request with these headers: the client expects
    /// `100 Continue` when its first `expect` header says `100-continue`,
    /// and accepts trailers when a `te` header mentions `trailers`.
    pub fn for_request(headers: &Vec<(Vec<u8>, Vec<u8>)>) -> (r: Responder<ExpectResponseHeaders>)
        ensures
            r.continue_pending == (first_expect(pairs_view(headers@)) == Some(continue_value())),
            r.trailers_accepted == accepts_trailers(pairs_view(headers@)),
            r.written == 0,
    {
        Responder::new(expects_continue(headers), te_says_trailers(headers))
    }

    /// An informational (1xx) response, written as is; any other status is
    /// refused. A `100 Continue` answers the client's `expect: 100-continue`.
    pub fn write_interim_response(&mut self, status: u16) -> (r: Result<
        EncoderCall,
        ResponseStatusError,
    >)
        ensures
            !is_informational(status) ==> r == Err::<EncoderCall, ResponseStatusError>(
                ResponseStatusError::InterimNotInformational,
            ) && final(self).continue_pending == old(self).continue_pending,
            is_informational(status) ==> r == Ok::<EncoderCall, ResponseStatusError>(
                EncoderCall::WriteResponse { status },
            ) && final(self).continue_pending == (old(self).continue_pending && status != 100),
            final(self).trailers_accepted == old(self).trailers_accepted,
            final(self).written == old(self).written,
    {
        match check_interim_status(status) {
            Ok(()) => {
                if status == 100 {
                    self.continue_pending = false;
                }
                Ok(EncoderCall::WriteResponse { status })
            },
            Err(e) => Err(e),
        }
    }

    /// The final response head, with what it announces: the
    /// `content-length`, whether the body is chunked, and the trailer names.
    /// Refused for a 1xx status, and while the client's
    /// `expect: 100-continue` is unanswered.
    pub fn write_final_response(
        self,
        status: u16,
        content_length: Option<u64>,
        chunked: bool,
        trailer_names: Vec<Vec<u8>>,
    ) -> (r: Result<(Responder<ExpectResponseBody>, EncoderCall), ResponseStatusError>)
        ensures
            is_informational(status) ==> r == Err::<
                (Responder<ExpectResponseBody>, EncoderCall),
                ResponseStatusError,
            >(ResponseStatusError::FinalIsInformational),
            !is_informational(status) && self.continue_pending ==> r == Err::<
                (Responder<ExpectResponseBody>, EncoderCall),
                ResponseStatusError,
            >(ResponseStatusError::ContinuePending),
            !is_informational(status) && !self.continue_pending ==> (r matches Ok((next, call))
                && call == EncoderCall::WriteResponse { status } && next.status == status
                && next.announced_length == content_length && next.chunked == chunked
                && next.trailer_names@ == trailer_names@ && next.written == 0
                && next.trailers_accepted == self.trailers_accepted && !next.continue_pending),
    {
        match check_final_status(status) {
            Err(e) => Err(e),
            Ok(()) => {
                if self.continue_pending {
                    return Err(ResponseStatusError::ContinuePending);
                }
                let next = Responder {
                    state: ExpectResponseBody,
                    continue_pending: false,
                    trailers_accepted: self.trailers_accepted,
                    status,
                    announced_length: content_length,
                    chunked,
                    trailer_names,
                    written: 0,
                };
                Ok((next, EncoderCall::WriteResponse { status }))
            },
        }
    }
}

impl Responder<ExpectResponseHeaders> {
    /// A whole response: its headers get a `content-length` when the body's
    /// length is known (unless they have one), the head is written (the body
    /// chunked when its length is not known), then each chunk, then the end
    /// with the trailers. The first refused step ends it.
    pub fn write_final_response_with_body(
        self,
        status: u16,
        headers: &mut Vec<(Vec<u8>, Vec<u8>)>,
        body_len: Option<u64>,
        chunks: Vec<Vec<u8>>,
        trailers: Option<Vec<(Vec<u8>, Vec<u8>)>>,
    ) -> (r: Result<(Responder<ResponseDone>, Vec<EncoderCall>), ResponseStatusError>)
        requires
            chunks_len(chunks@) <= u64::MAX,
        ensures
            pairs_view(final(headers)@) == with_content_length_spec(
                pairs_view(old(headers)@),
                body_len,
            ),
            match with_body_outcome(
                self.continue_pending,
                self.trailers_accepted,
                status,
                body_len,
                chunks_len(chunks@),
                match trailers {
                    Some(t) => Some(pairs_view(t@)),
                    None => None,
                },
            ) {
                Err(e) => r == Err::<(Responder<ResponseDone>, Vec<EncoderCall>), ResponseStatusError>(
                    e,
                ),
                Ok(()) => r matches Ok((done, calls)) && calls@ == seq![
                    EncoderCall::WriteResponse { status },
                ] + chunk_calls(chunks@) + end_calls(trailers) && done.status == status
                    && done.written == chunks_len(chunks@),
            },
    {
        with_content_length(headers, body_len);
        let ghost pending = self.continue_pending;
        let (mut res, head) = match self.write_final_response(
            status,
            body_len,
            body_len.is_none(),
            Vec::new(),
        ) {
            Ok(x) => x,
            Err(e) => {
                return Err(e);
            },
        };
        let mut calls: Vec<EncoderCall> = Vec::new();
        calls.push(head);
        let n = chunks.len();
        let mut rest = chunks;
        let ghost all = rest@;
        let mut k: usize = 0;
        while k < n
            invariant
                k <= n,
                n == all.len(),
                rest@ == all.subrange(k as int, n as int),
                chunks_len(all) <= u64::MAX,
                res.written == chunks_len(all.subrange(0, k as int)),
                res.status == status,
                res.announced_length == body_len,
                res.chunked == body_len.is_none(),
                res.trailer_names@.len() == 0,
                res.trailers_accepted == self.trailers_accepted,
                body_len matches Some(m) ==> res.written <= m,
                !is_informational(status),
                !pending,
                pending == self.continue_pending,
                all == chunks@,
                pairs_view(headers@) == with_content_length_spec(
                    pairs_view(old(headers)@),
                    body_len,
                ),
                calls@ == seq![EncoderCall::WriteResponse { status }] + chunk_calls(
                    all.subrange(0, k as int),
                ),
            decreases n - k,
        {
            proof {
                lemma_chunks_len_prefix(all, k as int);
                lemma_chunks_len_monotone(all, k as int + 1);
            }
            let c = rest.remove(0);
            proof {
                assert(c == all[k as int]);
                assert(rest@ =~= all.subrange(k + 1, n as int));
            }
            match res.write_chunk(c) {
                Ok(call) => {
                    calls.push(call);
                    proof {
                        assert(chunk_calls(all.subrange(0, k + 1)) =~= chunk_calls(
                            all.subrange(0, k as int),
                        ).push(EncoderCall::WriteBodyChunk(all[k as int])));
                    }
                },
                Err(e) => {
                    return Err(e);
                },
            }
            k = k + 1;
        }
        proof {
            assert(all.subrange(0, n as int) =~= all);
            assert(names_view(res.trailer_names@) =~= Seq::<Seq<u8>>::empty());
        }
        match res.finish_body(trailers) {
            Ok((done, end)) => {
                let mut end = end;
                calls.append(&mut end);
                Ok((done, calls))
            },
            Err(e) => Err(e),
        }
    }
}

/// The length of the first `k + 1` chunks is that of the first `k` and the
/// next.
proof fn lemma_chunks_len_prefix(cs: Seq<Vec<u8>>, k: int)
    requires
        0 <= k < cs.len(),
    ensures
        chunks_len(cs.subrange(0, k + 1)) == chunks_len(cs.subrange(0, k)) + cs[k]@.len(),
{
    assert(cs.subrange(0, k + 1).drop_last() =~= cs.subrange(0, k));
}

/// A prefix of the chunks holds no more than all of them.
proof fn lemma_chunks_len_monotone(cs: Seq<Vec<u8>>, k: int)
    requires
        0 <= k <= cs.len(),
    ensures
        chunks_len(cs.subrange(0, k)) <= chunks_len(cs),
        0 <= chunks_len(cs.subrange(0, k)),
    decreases cs.len() - k,
{
    lemma_chunks_len_nonneg(cs.subrange(0, k));
    if k < cs.len() {
        lemma_chunks_len_prefix(cs, k);
        lemma_chunks_len_monotone(cs, k + 1);
    } else {
        assert(cs.subrange(0, k) =~= cs);
        lemma_chunks_len_nonneg(cs);
    }
}

proof fn lemma_chunks_len_nonneg(cs: Seq<Vec<u8>>)
    ensures
        0 <= chunks_len(cs),
    decreases cs.len(),
{
    if cs.len() > 0 {
        lemma_chunks_len_nonneg(cs.drop_last());
    }
}

impl Responder<ExpectResponseBody> {
    /// A chunk of the body; refused when it would take the body past the
    /// announced `content-length`.
    pub fn write_chunk(&mut self, chunk: Vec<u8>) -> (r: Result<EncoderCall, ResponseStatusError>)
        requires
            old(self).written + chunk@.len() <= u64::MAX,
        ensures
            (match old(self).announced_length {
                Some(n) => old(self).written + chunk@.len() > n,
                None => false,
            }) ==> r == Err::<EncoderCall, ResponseStatusError>(
                ResponseStatusError::BeyondContentLength,
            ) && final(self).written == old(self).written,
            !(match old(self).announced_length {
                Some(n) => old(self).written + chunk@.len() > n,
                None => false,
            }) ==> r == Ok::<EncoderCall, ResponseStatusError>(EncoderCall::WriteBodyChunk(chunk))
                && final(self).written == old(self).written + chunk@.len(),
            final(self).status == old(self).status,
            final(self).announced_length == old(self).announced_length,
            final(self).chunked == old(self).chunked,
            final(self).trailers_accepted == old(self).trailers_accepted,
            final(self).trailer_names@ == old(self).trailer_names@,
    {
        let len = chunk.len() as u64;
        let total = self.written + len;
        match self.announced_length {
            Some(n) => {
                if total > n {
                    return Err(ResponseStatusError::BeyondContentLength);
                }
            },
            None => {},
        }
        self.written = total;
        Ok(EncoderCall::WriteBodyChunk(chunk))
    }

    /// The end of the body, then the trailers if any. Refused when the body
    /// is shorter than the announced `content-length`, and when trailers
    /// are not allowed (see `trailers_allowed`).
    pub fn finish_body(self, trailers: Option<Vec<(Vec<u8>, Vec<u8>)>>) -> (r: Result<
        (Responder<ResponseDone>, Vec<EncoderCall>),
        ResponseStatusError,
    >)
        ensures
            (match self.announced_length {
                Some(n) => self.written != n,
                None => false,
            }) ==> r == Err::<(Responder<ResponseDone>, Vec<EncoderCall>), ResponseStatusError>(
                ResponseStatusError::LengthMismatch,
            ),
            !(match self.announced_length {
                Some(n) => self.written != n,
                None => false,
            }) ==> match trailers {
                Some(t) => if trailers_allowed(
                    pairs_view(t@),
                    self.trailers_accepted,
                    self.status,
                    self.chunked,
                    names_view(self.trailer_names@),
                ) {
                    r matches Ok((done, calls)) && calls@ == seq![
                        EncoderCall::WriteBodyEnd,
                        EncoderCall::WriteTrailers(t),
                    ] && done.status == self.status && done.written == self.written
                } else {
                    r == Err::<(Responder<ResponseDone>, Vec<EncoderCall>), ResponseStatusError>(
                        ResponseStatusError::TrailersNotAllowed,
                    )
                },
                None => r matches Ok((done, calls)) && calls@ == seq![EncoderCall::WriteBodyEnd]
                    && done.status == self.status && done.written == self.written,
            },
    {
        match self.announced_length {
            Some(n) => {
                if self.written != n {
                    return Err(ResponseStatusError::LengthMismatch);
                }
            },
            None => {},
        }
        let mut calls: Vec<EncoderCall> = Vec::new();
        calls.push(EncoderCall::WriteBodyEnd);
        match trailers {
            Some(t) => {
                let ok = self.trailers_accepted && self.chunked && self.status != 204
                    && self.status != 205 && self.status != 304 && all_listed(
                    &t,
                    &self.trailer_names,
                );
                if !ok {
                    return Err(ResponseStatusError::TrailersNotAllowed);
                }
                calls.push(EncoderCall::WriteTrailers(t));
            },
            None => {},
        }
        let done = Responder {
            state: ResponseDone,
            continue_pending: false,
            trailers_accepted: self.trailers_accepted,
            status: self.status,
            announced_length: self.announced_length,
            chunked: self.chunked,
            trailer_names: self.trailer_names,
            written: self.written,
        };
        Ok((done, calls))
    }
}

/// What the connection delivers to a request body.
pub enum StreamIncomingItem {
    /// a chunk of the body
    Piece(Vec<u8>),
    /// the trailers, which end the body
    Trailers(Vec<(Vec<u8>, Vec<u8>)>),
}

/// What reading a request body gives.
pub enum BodyChunk {
    Chunk(Vec<u8>),
    /// The body finished, with its trailers if any.
    Done { trailers: Option<Vec<(Vec<u8>, Vec<u8>)>> },
}

/// A request body, as the connection delivers it.
#[derive(Debug, Clone, Copy, PartialEq, Eq, Structural)]
pub struct H2Body {
    pub content_length: Option<u64>,
    pub eof: bool,
}

impl H2Body {
    /// The body of a request; one that ended with its headers is empty.
    pub fn new(end_stream: bool) -> (r: H2Body)
        ensures
            r.eof == end_stream,
            r.content_length == if end_stream {
                Some(0u64)
            } else {
                None::<u64>
            },
    {
        H2Body { content_length: if end_stream { Some(0) } else { None }, eof: end_stream }
    }

    /// The announced length, if known.
    pub fn content_len(&self) -> (r: Option<u64>)
        ensures
            r == self.content_length,
    {
        self.content_length
    }

    /// Whether the body was read whole.
    pub fn eof(&self) -> (r: bool)
        ensures
            r == self.eof,
    {
        self.eof
    }

    /// The next chunk of the body, given what the connection delivered next
    /// (`None` when it will deliver nothing more). Once the body ended, it
    /// is done and nothing is taken from the connection.
    pub fn next_chunk(&mut self, item: Option<StreamIncomingItem>) -> (r: BodyChunk)
        ensures
            old(self).eof ==> (r matches BodyChunk::Done { trailers: None } && *final(self)
                == *old(self)),
            !old(self).eof ==> match item {
                Some(StreamIncomingItem::Piece(p)) => (r matches BodyChunk::Chunk(c) && c == p
                    && *final(self) == *old(self)),
                Some(StreamIncomingItem::Trailers(t)) => (r matches BodyChunk::Done {
                    trailers: Some(t2),
                } && t2 == t && final(self).eof && final(self).content_length
                    == old(self).content_length),
                None => (r matches BodyChunk::Done { trailers: None } && final(self).eof
                    && final(self).content_length == old(self).content_length),
            },
    {
        if self.eof {
            return BodyChunk::Done { trailers: None };
        }
        match item {
            Some(StreamIncomingItem::Piece(p)) => BodyChunk::Chunk(p),
            Some(StreamIncomingItem::Trailers(t)) => {
                self.eof = true;
                BodyChunk::Done { trailers: Some(t) }
            },
            None => {
                self.eof = true;
                BodyChunk::Done { trailers: None }
            },
        }
    }
}

/// A body made of one piece.
pub struct SinglePieceBody {
    pub content_len: u64,
    pub piece: Option<Vec<u8>>,
}

impl SinglePieceBody {
    /// The body holding `piece`.
    pub fn new(piece: Vec<u8>) -> (r: SinglePieceBody)
        ensures
            r.piece == Some(piece),
            r.content_len == piece@.len() as u64,
    {
        let content_len = piece.len() as u64;
        SinglePieceBody { content_len, piece: Some(piece) }
    }

    /// The length of what is left to read.
    pub fn content_len(&self) -> (r: Option<u64>)
        ensures
            r == match self.piece {
                Some(p) => Some(p@.len() as u64),
                None => None::<u64>,
            },
    {
        match &self.piece {
            Some(p) => Some(p.len() as u64),
            None => None,
        }
    }

    /// Whether the piece was read.
    pub fn eof(&self) -> (r: bool)
        ensures
            r == self.piece is None,
    {
        self.piece.is_none()
    }

    /// The piece, then the end.
    pub fn next_chunk(&mut self) -> (r: BodyChunk)
        ensures
            final(self).piece is None,
            final(self).content_len == old(self).content_len,
            match old(self).piece {
                Some(p) => (r matches BodyChunk::Chunk(c) && c == p),
                None => (r matches BodyChunk::Done { trailers: None }),
            },
    {
        match self.piece.take() {
            Some(p) => BodyChunk::Chunk(p),
            None => BodyChunk::Done { trailers: None },
        }
    }
}

} // verus!
