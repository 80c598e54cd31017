//! The request handler of the conformance test server: which route a path
//! takes, whether the client waits for `100 Continue`, and the bodies it
//! answers with.
use vstd::prelude::*;

use crate::headers::pairs_view;
use crate::roll::{lowercase, lowercase_byte};
use crate::types::{repeated, str_repeat};
use vstd::utf8::encode_utf8;

verus! {

/// The routes of the test server.
#[derive(Debug, Clone, Copy, PartialEq, Eq, Structural)]
pub enum Route {
    /// `/echo-body`: the request body comes back
    EchoBody,
    /// `/stream-big-body`: a large body, in chunks
    StreamBigBody,
    /// anything else: a short fixed body
    Other,
}

pub open spec fn echo_body_path() -> Seq<u8> {
    seq![0x2fu8, 0x65, 0x63, 0x68, 0x6f, 0x2d, 0x62, 0x6f, 0x64, 0x79]
}

pub open spec fn stream_big_body_path() -> Seq<u8> {
    seq![
        0x2fu8, 0x73, 0x74, 0x72, 0x65, 0x61, 0x6d, 0x2d, 0x62, 0x69, 0x67, 0x2d, 0x62, 0x6f,
        0x64, 0x79,
    ]
}

pub open spec fn route_of(path: Seq<u8>) -> Route {
    if path == echo_body_path() {
        Route::EchoBody
    } else if path == stream_big_body_path() {
        Route::StreamBigBody
    } else {
        Route::Other
    }
}

pub(crate) fn same(a: &[u8], b: &[u8]) -> (r: bool)
    ensures
        r == (a@ == b@),
{
    if a.len() != b.len() {
        return false;
    }
    let mut k: usize = 0;
    while k < a.len()
        invariant
            a@.len() == b@.len(),
            k <= a@.len(),
            forall|j: int| 0 <= j < k ==> a@[j] == b@[j],
        decreases a@.len() - k,
    {
        if a[k] != b[k] {
            return false;
        }
        k = k + 1;
    }
    assert(a@ =~= b@);
    true
}

/// The route a request path takes.
pub fn route(path: &[u8]) -> (r: Route)
    ensures
        r == route_of(path@),
{
    let echo: [u8; 10] = [0x2f, 0x65, 0x63, 0x68, 0x6f, 0x2d, 0x62, 0x6f, 0x64, 0x79];
    let big: [u8; 16] = [
        0x2f, 0x73, 0x74, 0x72, 0x65, 0x61, 0x6d, 0x2d, 0x62, 0x69, 0x67, 0x2d, 0x62, 0x6f, 0x64,
        0x79,
    ];
    assert(echo@ =~= echo_body_path());
    assert(big@ =~= stream_big_body_path());
    if same(path, echo.as_slice()) {
        Route::EchoBody
    } else if same(path, big.as_slice()) {
        Route::StreamBigBody
    } else {
        Route::Other
    }
}

pub open spec fn expect_name() -> Seq<u8> {
    seq![0x65u8, 0x78, 0x70, 0x65, 0x63, 0x74]
}

pub open spec fn continue_value() -> Seq<u8> {
    seq![0x31u8, 0x30, 0x30, 0x2d, 0x63, 0x6f, 0x6e, 0x74, 0x69, 0x6e, 0x75, 0x65]
}

/// `k` is the name `expect`, in any case.
pub open spec fn is_expect(k: Seq<u8>) -> bool {
    k.len() == 6 && forall|i: int| 0 <= i < 6 ==> lowercase(#[trigger] k[i]) == expect_name()[i]
}

/// The value of the first `expect` header, if any.
pub open spec fn first_expect(hs: Seq<(Seq<u8>, Seq<u8>)>) -> Option<Seq<u8>>
    decreases hs.len(),
{
    if hs.len() == 0 {
        None
    } else if is_expect(hs[0].0) {
        Some(hs[0].1)
    } else {
        first_expect(hs.drop_first())
    }
}

fn name_is_expect(k: &Vec<u8>) -> (r: bool)
    ensures
        r == is_expect(k@),
{
    if k.len() != 6 {
        return false;
    }
    let name: [u8; 6] = [0x65, 0x78, 0x70, 0x65, 0x63, 0x74];
    assert(name@ =~= expect_name());
    let mut i: usize = 0;
    while i < 6
        invariant
            k@.len() == 6,
            name@ == expect_name(),
            i <= 6,
            forall|j: int| 0 <= j < i ==> lowercase(#[trigger] k@[j]) == expect_name()[j],
        decreases 6 - i,
    {
        if lowercase_byte(k[i]) != name[i] {
            return false;
        }
        i = i + 1;
    }
    true
}

/// Whether the client waits for `100 Continue` before sending its body:
/// its first `expect` header says `100-continue`.
pub fn expects_continue(headers: &Vec<(Vec<u8>, Vec<u8>)>) -> (r: bool)
    ensures
        r == (first_expect(pairs_view(headers@)) == Some(continue_value())),
{
    let value: [u8; 12] = [0x31, 0x30, 0x30, 0x2d, 0x63, 0x6f, 0x6e, 0x74, 0x69, 0x6e, 0x75, 0x65];
    assert(value@ =~= continue_value());
    let mut k: usize = 0;
    assert(pairs_view(headers@).subrange(0, headers@.len() as int) =~= pairs_view(headers@));
    while k < headers.len()
        invariant
            k <= headers@.len(),
            value@ == continue_value(),
            first_expect(pairs_view(headers@)) == first_expect(
                pairs_view(headers@).subrange(k as int, headers@.len() as int),
            ),
        decreases headers@.len() - k,
    {
        let ghost rest = pairs_view(headers@).subrange(k as int, headers@.len() as int);
        proof {
            assert(rest.drop_first() =~= pairs_view(headers@).subrange(k + 1, headers@.len() as int));
            assert(rest[0] == (headers@[k as int].0@, headers@[k as int].1@));
        }
        if name_is_expect(&headers[k].0) {
            return same(headers[k].1.as_slice(), value.as_slice());
        }
        k = k + 1;
    }
    false
}

/// The body of the default route.
pub open spec fn default_body_text() -> Seq<char> {
    "it's less dire to lose, than to lose oneself"@
}

/// A body made of one piece, repeated.
pub struct RepeatBody {
    pub piece: Vec<u8>,
    pub n: usize,
    pub written: usize,
}

/// What reading a repeated body gives.
#[derive(Debug, Clone, PartialEq, Eq)]
pub enum RepeatChunk {
    Chunk(Vec<u8>),
    Done,
}

impl RepeatBody {
    pub open spec fn wf(&self) -> bool {
        self.written <= self.n
    }

    /// The whole length: `n` times the piece.
    pub fn content_len(&self) -> (r: Option<u64>)
        requires
            self.n * self.piece@.len() <= u64::MAX,
        ensures
            r == Some((self.n * self.piece@.len()) as u64),
    {
        let n = self.n as u64;
        let len = self.piece.len() as u64;
        assert(n * len == self.n * self.piece@.len());
        Some(n * len)
    }

    /// Whether every repetition was read.
    pub fn eof(&self) -> (r: bool)
        ensures
            r == (self.written == self.n),
    {
        self.written == self.n
    }

    /// The next repetition, or the end.
    pub fn next_chunk(&mut self) -> (r: RepeatChunk)
        requires
            old(self).wf(),
        ensures
            final(self).wf(),
            final(self).n == old(self).n,
            final(self).piece == old(self).piece,
            old(self).written == old(self).n ==> r == RepeatChunk::Done && final(self).written
                == old(self).written,
            old(self).written < old(self).n ==> (r matches RepeatChunk::Chunk(c) && c@
                == old(self).piece@ && final(self).written == old(self).written + 1),
    {
        if self.written == self.n {
            return RepeatChunk::Done;
        }
        let mut c: Vec<u8> = Vec::new();
        let mut k: usize = 0;
        while k < self.piece.len()
            invariant
                k <= self.piece@.len(),
                c@ == self.piece@.subrange(0, k as int),
            decreases self.piece@.len() - k,
        {
            c.push(self.piece[k]);
            k = k + 1;
            assert(c@ =~= self.piece@.subrange(0, k as int));
        }
        assert(c@ =~= self.piece@);
        self.written = self.written + 1;
        RepeatChunk::Chunk(c)
    }
}

/// What the body of a planned response is.
#[derive(Debug, Clone, PartialEq, Eq)]
pub enum PlannedBody {
    /// the request body, as it comes
    EchoRequest,
    /// this piece, `n` times over
    Repeat { piece: Vec<u8>, n: usize },
    /// these bytes
    Fixed(Vec<u8>),
}

/// How the test server answers a request: with `100 Continue` first or
/// not, then the final status and the body.
#[derive(Debug, Clone, PartialEq, Eq)]
pub struct ResponsePlan {
    pub interim_continue: bool,
    pub status: u16,
    pub body: PlannedBody,
}

/// The piece the big body repeats: a short sentence, 256 times over.
pub open spec fn big_chunk() -> Seq<u8> {
    encode_utf8(repeated("this is a big chunk"@, 256))
}

fn copy_bytes(b: &[u8]) -> (r: Vec<u8>)
    ensures
        r@ == b@,
{
    let mut out: Vec<u8> = Vec::new();
    let mut k: usize = 0;
    while k < b.len()
        invariant
            k <= b@.len(),
            out@ == b@.take(k as int),
        decreases b@.len() - k,
    {
        out.push(b[k]);
        k = k + 1;
        assert(out@ =~= b@.take(k as int));
    }
    assert(b@.take(k as int) =~= b@);
    out
}

/// How the test server answers a request with these headers for this
/// path: `100 Continue` first exactly when the client waits for it, then
/// 200 with the route's body (the request body for `/echo-body`, the big
/// chunk 128 times for `/stream-big-body`, the default sentence otherwise).
pub fn plan_response(headers: &Vec<(Vec<u8>, Vec<u8>)>, path: &[u8]) -> (r: ResponsePlan)
    ensures
        r.interim_continue == (first_expect(pairs_view(headers@)) == Some(continue_value())),
        r.status == 200,
        match route_of(path@) {
            Route::EchoBody => r.body == PlannedBody::EchoRequest,
            Route::StreamBigBody => r.body matches PlannedBody::Repeat { piece, n } && piece@
                == big_chunk() && n == 128,
            Route::Other => r.body matches PlannedBody::Fixed(b) && b@ == encode_utf8(
                default_body_text(),
            ),
        },
{
    let interim_continue = expects_continue(headers);
    let body = match route(path) {
        Route::EchoBody => PlannedBody::EchoRequest,
        Route::StreamBigBody => {
            let chunk = str_repeat("this is a big chunk", 256);
            PlannedBody::Repeat { piece: copy_bytes(chunk.as_str().as_bytes()), n: 128 }
        },
        Route::Other => {
            let text = "it's less dire to lose, than to lose oneself";
            PlannedBody::Fixed(copy_bytes(text.as_bytes()))
        },
    };
    ResponsePlan { interim_continue, status: 200, body }
}

} // verus!
