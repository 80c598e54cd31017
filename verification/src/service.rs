//! The routes of the hyper-based test services: which answer a request path
//! asks for.
use vstd::prelude::*;

use vstd::utf8::encode_utf8;

use crate::bytes::{lemma_split_on_nonempty, split_bytes, split_on};
use crate::driver::{big_chunk, same};
use crate::types::str_repeat;

verus! {

/// The routes of the conformance test service.
#[derive(Debug, Clone, PartialEq, Eq)]
pub enum ServiceRoute {
    /// `/echo-body`: the request body comes back
    EchoBody,
    /// `/status/{code}`: an empty response with that status
    Status(u16),
    /// `/repeat-4k-blocks/{repeat}`: that many 4 KiB blocks
    Repeat4kBlocks(usize),
    /// `/stream-file/{name}`: the file of that name, in blocks
    StreamFile(Vec<u8>),
    /// `/`: a default message
    Root,
    /// the number in a `status` or `repeat-4k-blocks` path is not one
    BadNumber,
    /// anything else: 404
    NotFound,
}

/// A route, with the file name as bytes.
pub enum ServiceRouteView {
    EchoBody,
    Status(u16),
    Repeat4kBlocks(usize),
    StreamFile(Seq<u8>),
    Root,
    BadNumber,
    NotFound,
}

impl View for ServiceRoute {
    type V = ServiceRouteView;

    open spec fn view(&self) -> ServiceRouteView {
        match self {
            ServiceRoute::EchoBody => ServiceRouteView::EchoBody,
            ServiceRoute::Status(c) => ServiceRouteView::Status(*c),
            ServiceRoute::Repeat4kBlocks(n) => ServiceRouteView::Repeat4kBlocks(*n),
            ServiceRoute::StreamFile(name) => ServiceRouteView::StreamFile(name@),
            ServiceRoute::Root => ServiceRouteView::Root,
            ServiceRoute::BadNumber => ServiceRouteView::BadNumber,
            ServiceRoute::NotFound => ServiceRouteView::NotFound,
        }
    }
}

/// The routes of the hyper test bed.
#[derive(Debug, Clone, Copy, PartialEq, Eq, Structural)]
pub enum TestbedRoute {
    /// `/echo-body`: the request body comes back
    EchoBody,
    /// `/stream-big-body`: a large body, in chunks
    StreamBigBody,
    /// `/status/{code}`: an empty response with that status
    Status(u16),
    /// the code in a `status` path is not a number
    BadNumber,
    /// anything else: 404
    NotFound,
}

/// The UTF-8 bytes of a text.
pub open spec fn text(s: &str) -> Seq<u8> {
    encode_utf8(s@)
}

/// The path without its leading slashes.
pub open spec fn trim_slashes(b: Seq<u8>) -> Seq<u8>
    decreases b.len(),
{
    if b.len() > 0 && b[0] == 0x2fu8 {
        trim_slashes(b.drop_first())
    } else {
        b
    }
}

/// The segments of a path: split at `/` after its leading slashes.
pub open spec fn path_segments(path: Seq<u8>) -> Seq<Seq<u8>> {
    split_on(trim_slashes(path), 0x2fu8)
}

pub open spec fn is_digit(c: u8) -> bool {
    0x30u8 <= c <= 0x39u8
}

/// The value of a string of decimal digits.
pub open spec fn digits_value(d: Seq<u8>) -> nat
    decreases d.len(),
{
    if d.len() == 0 {
        0
    } else {
        digits_value(d.drop_last()) * 10 + (d.last() - 0x30u8) as nat
    }
}

/// The number an unsigned integer's `from_str` reads: an optional `+`, then
/// one or more decimal digits.
pub open spec fn decimal_of(s: Seq<u8>) -> Option<nat> {
    let d = unsigned_digits(s);
    if d.len() > 0 && all_digits(d) {
        Some(digits_value(d))
    } else {
        None
    }
}

/// The text after an optional leading `+`.
pub open spec fn unsigned_digits(s: Seq<u8>) -> Seq<u8> {
    if s.len() > 0 && s[0] == 0x2bu8 {
        s.drop_first()
    } else {
        s
    }
}

pub open spec fn all_digits(d: Seq<u8>) -> bool {
    forall|i: int| 0 <= i < d.len() ==> is_digit(#[trigger] d[i])
}

/// What `str::parse::<usize>` gives: the number, if it is one that fits.
pub open spec fn parse_usize_of(s: Seq<u8>) -> Option<usize> {
    match decimal_of(s) {
        Some(v) => if v <= usize::MAX {
            Some(v as usize)
        } else {
            None
        },
        None => None,
    }
}

/// What `str::parse::<u16>` gives: the number, if it is one that fits.
pub open spec fn parse_u16_of(s: Seq<u8>) -> Option<u16> {
    match decimal_of(s) {
        Some(v) => if v <= u16::MAX {
            Some(v as u16)
        } else {
            None
        },
        None => None,
    }
}

/// The route of a path for the conformance test service.
pub open spec fn service_route_of(path: Seq<u8>) -> ServiceRouteView {
    let p = path_segments(path);
    if p.len() == 1 && p[0] == text("echo-body") {
        ServiceRouteView::EchoBody
    } else if p.len() == 2 && p[0] == text("status") {
        match parse_u16_of(p[1]) {
            Some(c) => ServiceRouteView::Status(c),
            None => ServiceRouteView::BadNumber,
        }
    } else if p.len() == 2 && p[0] == text("repeat-4k-blocks") {
        match parse_usize_of(p[1]) {
            Some(n) => ServiceRouteView::Repeat4kBlocks(n),
            None => ServiceRouteView::BadNumber,
        }
    } else if p.len() == 2 && p[0] == text("stream-file") {
        ServiceRouteView::StreamFile(p[1])
    } else if trim_slashes(path).len() == 0 {
        ServiceRouteView::Root
    } else {
        ServiceRouteView::NotFound
    }
}

/// The path without its leading slashes.
fn trim_start_slashes(b: &[u8]) -> (r: &[u8])
    ensures
        r@ == trim_slashes(b@),
{
    let mut k: usize = 0;
    assert(b@.subrange(0, b@.len() as int) =~= b@);
    while k < b.len() && b[k] == 0x2f
        invariant
            k <= b@.len(),
            trim_slashes(b@) == trim_slashes(b@.subrange(k as int, b@.len() as int)),
        decreases b@.len() - k,
    {
        let ghost rest = b@.subrange(k as int, b@.len() as int);
        assert(rest.drop_first() =~= b@.subrange(k + 1, b@.len() as int));
        k = k + 1;
    }
    let (_, rest) = b.split_at(k);
    rest
}

proof fn lemma_digits_value_grows(d: Seq<u8>, k: int)
    requires
        0 <= k <= d.len(),
        forall|i: int| 0 <= i < d.len() ==> is_digit(#[trigger] d[i]),
    ensures
        digits_value(d.take(k)) <= digits_value(d),
    decreases d.len() - k,
{
    if k < d.len() {
        lemma_digits_value_grows(d, k + 1);
        assert(d.take(k + 1).drop_last() =~= d.take(k));
    } else {
        assert(d.take(k) =~= d);
    }
}

/// The number a decimal string stands for, if it fits in a `usize`, as
/// `str::parse::<usize>` reads it.
pub fn parse_usize(s: &[u8]) -> (r: Option<usize>)
    ensures
        r == parse_usize_of(s@),
{
    let start: usize = if s.len() > 0 && s[0] == 0x2b {
        1
    } else {
        0
    };
    let ghost d = s@.subrange(start as int, s@.len() as int);
    assert(start == 1 ==> d =~= s@.drop_first());
    assert(start == 0 ==> d =~= s@);
    if start == s.len() {
        return None;
    }
    let mut k: usize = start;
    let mut acc: usize = 0;
    assert(d.take(0) =~= Seq::<u8>::empty());
    while k < s.len()
        invariant
            start <= k <= s@.len(),
            start < s@.len(),
            d == s@.subrange(start as int, s@.len() as int),
            d == unsigned_digits(s@),
            forall|i: int| 0 <= i < k - start ==> is_digit(#[trigger] d[i]),
            acc == digits_value(d.take(k - start)),
        decreases s@.len() - k,
    {
        let c = s[k];
        assert(c == d[k - start]);
        if c < 0x30 || c > 0x39 {
            return None;
        }
        let ghost pre = d.take(k - start);
        let ghost post = d.take(k - start + 1);
        assert(post.drop_last() =~= pre);
        let digit = (c - 0x30) as usize;
        match acc.checked_mul(10) {
            Some(m) => match m.checked_add(digit) {
                Some(v) => {
                    acc = v;
                },
                None => {
                    proof {
                        lemma_all_digits_or_none(s@, d, k - start);
                    }
                    return None;
                },
            },
            None => {
                proof {
                    assert(digits_value(post) >= acc * 10) by (nonlinear_arith)
                        requires
                            digits_value(post) == acc * 10 + (c - 0x30u8) as nat,
                    ;
                    lemma_all_digits_or_none(s@, d, k - start);
                }
                return None;
            },
        }
        k = k + 1;
    }
    assert(d.take(k - start) =~= d);
    Some(acc)
}

/// When the digits so far already overflow a `usize`, the whole string
/// reads as no `usize`: either a later byte is no digit, or the value only
/// grows.
proof fn lemma_all_digits_or_none(s: Seq<u8>, d: Seq<u8>, j: int)
    requires
        0 <= j < d.len(),
        d == unsigned_digits(s),
        forall|i: int| 0 <= i <= j ==> is_digit(#[trigger] d[i]),
        digits_value(d.take(j + 1)) > usize::MAX,
    ensures
        parse_usize_of(s) is None,
{
    if decimal_of(s) is Some {
        assert(forall|i: int| 0 <= i < d.len() ==> is_digit(#[trigger] d[i]));
        lemma_digits_value_grows(d, j + 1);
        assert(decimal_of(s) == Some(digits_value(d)));
    }
}

/// The status code a decimal string stands for, as `str::parse::<u16>`
/// reads it.
pub fn parse_u16(s: &[u8]) -> (r: Option<u16>)
    ensures
        r == parse_u16_of(s@),
{
    match parse_usize(s) {
        Some(v) => if v <= 65535 {
            Some(v as u16)
        } else {
            None
        },
        None => {
            proof {
                if decimal_of(s@) is Some {
                    assert(decimal_of(s@)->0 > usize::MAX);
                }
            }
            None
        },
    }
}

/// The route of a path for the hyper test bed.
pub open spec fn testbed_route_of(path: Seq<u8>) -> TestbedRoute {
    let p = path_segments(path);
    if path == text("/echo-body") {
        TestbedRoute::EchoBody
    } else if path == text("/stream-big-body") {
        TestbedRoute::StreamBigBody
    } else if p.len() == 2 && p[0] == text("status") {
        match parse_u16_of(p[1]) {
            Some(c) => TestbedRoute::Status(c),
            None => TestbedRoute::BadNumber,
        }
    } else {
        TestbedRoute::NotFound
    }
}

fn segments_of(path: &[u8]) -> (r: Vec<Vec<u8>>)
    ensures
        r@.map_values(|p: Vec<u8>| p@) == path_segments(path@),
        r@.len() >= 1,
{
    let trimmed = trim_start_slashes(path);
    proof {
        lemma_split_on_nonempty(trimmed@, 0x2fu8);
    }
    let r = split_bytes(trimmed, 0x2f);
    assert(r@.map_values(|p: Vec<u8>| p@).len() == r@.len());
    r
}

/// The route of a path for the conformance test service.
pub fn service_route(path: &[u8]) -> (r: ServiceRoute)
    ensures
        r@ == service_route_of(path@),
{
    let parts = segments_of(path);
    let ghost p = parts@.map_values(|v: Vec<u8>| v@);
    assert(parts@.len() == p.len());
    assert(forall|i: int| 0 <= i < p.len() ==> #[trigger] p[i] == parts@[i]@);
    if parts.len() == 1 && same(parts[0].as_slice(), "echo-body".as_bytes()) {
        ServiceRoute::EchoBody
    } else if parts.len() == 2 && same(parts[0].as_slice(), "status".as_bytes()) {
        match parse_u16(parts[1].as_slice()) {
            Some(c) => ServiceRoute::Status(c),
            None => ServiceRoute::BadNumber,
        }
    } else if parts.len() == 2 && same(parts[0].as_slice(), "repeat-4k-blocks".as_bytes()) {
        match parse_usize(parts[1].as_slice()) {
            Some(n) => ServiceRoute::Repeat4kBlocks(n),
            None => ServiceRoute::BadNumber,
        }
    } else if parts.len() == 2 && same(parts[0].as_slice(), "stream-file".as_bytes()) {
        ServiceRoute::StreamFile(parts[1].clone())
    } else if trim_start_slashes(path).len() == 0 {
        ServiceRoute::Root
    } else {
        ServiceRoute::NotFound
    }
}

/// The route of a path for the hyper test bed.
pub fn testbed_route(path: &[u8]) -> (r: TestbedRoute)
    ensures
        r == testbed_route_of(path@),
{
    if same(path, "/echo-body".as_bytes()) {
        return TestbedRoute::EchoBody;
    }
    if same(path, "/stream-big-body".as_bytes()) {
        return TestbedRoute::StreamBigBody;
    }
    let parts = segments_of(path);
    let ghost p = parts@.map_values(|v: Vec<u8>| v@);
    assert(parts@.len() == p.len());
    assert(forall|i: int| 0 <= i < p.len() ==> #[trigger] p[i] == parts@[i]@);
    if parts.len() == 2 && same(parts[0].as_slice(), "status".as_bytes()) {
        match parse_u16(parts[1].as_slice()) {
            Some(c) => TestbedRoute::Status(c),
            None => TestbedRoute::BadNumber,
        }
    } else {
        TestbedRoute::NotFound
    }
}

/// What the body of a test service's reply is.
#[derive(Debug, Clone, PartialEq, Eq)]
pub enum ReplyBody {
    /// the request body, as it comes
    EchoRequest,
    /// nothing
    Empty,
    /// these bytes
    Text(Vec<u8>),
    /// the 4 KiB sample block, this many times
    SampleBlocks(usize),
    /// the file at this path, in 64 KiB blocks
    FileBlocks(Vec<u8>),
    /// this piece, `n` times over
    Repeat { piece: Vec<u8>, n: usize },
}

/// A reply of a test service: its status and body.
#[derive(Debug, Clone, PartialEq, Eq)]
pub struct ServiceReply {
    pub status: u16,
    pub body: ReplyBody,
}

/// A status a response can carry (three digits).
pub open spec fn valid_status(c: u16) -> bool {
    100 <= c <= 999
}

/// Where the files the service streams lie.
pub open spec fn stream_file_dir() -> Seq<u8> {
    text("/tmp/stream-file/")
}

fn copy_all(b: &[u8]) -> (r: Vec<u8>)
    ensures
        r@ == b@,
{
    let mut out: Vec<u8> = Vec::new();
    let mut k: usize = 0;
    while k < b.len()
        invariant
            k <= b@.len(),
            out@ == b@.take(k as int),
        decreases b@.len() - k,
    {
        out.push(b[k]);
        k = k + 1;
        assert(out@ =~= b@.take(k as int));
    }
    assert(b@.take(k as int) =~= b@);
    out
}

/// The reply of the conformance test service for a route: 200 with the
/// request body for `/echo-body`; the given status with no body for
/// `/status/{code}`; 200 with that many sample blocks, or with the named
/// file; 200 with the default sentence for `/`; 404 with `404 Not Found`
/// otherwise. `None` where no response can be built: the number was none,
/// or the status has not three digits.
pub fn service_reply(route: &ServiceRoute) -> (r: Option<ServiceReply>)
    ensures
        match route@ {
            ServiceRouteView::EchoBody => r == Some(
                ServiceReply { status: 200, body: ReplyBody::EchoRequest },
            ),
            ServiceRouteView::Status(c) => if valid_status(c) {
                r == Some(ServiceReply { status: c, body: ReplyBody::Empty })
            } else {
                r is None
            },
            ServiceRouteView::Repeat4kBlocks(n) => r == Some(
                ServiceReply { status: 200, body: ReplyBody::SampleBlocks(n) },
            ),
            ServiceRouteView::StreamFile(name) => r matches Some(rep) && rep.status == 200
                && (rep.body matches ReplyBody::FileBlocks(p) && p@ == stream_file_dir() + name),
            ServiceRouteView::Root => r matches Some(rep) && rep.status == 200
                && (rep.body matches ReplyBody::Text(b) && b@ == text(
                "it's less dire to lose, than to lose oneself",
            )),
            ServiceRouteView::BadNumber => r is None,
            ServiceRouteView::NotFound => r matches Some(rep) && rep.status == 404
                && (rep.body matches ReplyBody::Text(b) && b@ == text("404 Not Found")),
        },
{
    match route {
        ServiceRoute::EchoBody => Some(ServiceReply { status: 200, body: ReplyBody::EchoRequest }),
        ServiceRoute::Status(c) => if 100 <= *c && *c <= 999 {
            Some(ServiceReply { status: *c, body: ReplyBody::Empty })
        } else {
            None
        },
        ServiceRoute::Repeat4kBlocks(n) => Some(
            ServiceReply { status: 200, body: ReplyBody::SampleBlocks(*n) },
        ),
        ServiceRoute::StreamFile(name) => {
            let mut p = copy_all("/tmp/stream-file/".as_bytes());
            let ghost dir = p@;
            let mut k: usize = 0;
            while k < name.len()
                invariant
                    k <= name@.len(),
                    p@ == dir + name@.take(k as int),
                decreases name@.len() - k,
            {
                p.push(name[k]);
                k = k + 1;
                assert(p@ =~= dir + name@.take(k as int));
            }
            assert(name@.take(k as int) =~= name@);
            Some(ServiceReply { status: 200, body: ReplyBody::FileBlocks(p) })
        },
        ServiceRoute::Root => {
            let b = copy_all("it's less dire to lose, than to lose oneself".as_bytes());
            Some(ServiceReply { status: 200, body: ReplyBody::Text(b) })
        },
        ServiceRoute::BadNumber => None,
        ServiceRoute::NotFound => {
            let b = copy_all("404 Not Found".as_bytes());
            Some(ServiceReply { status: 404, body: ReplyBody::Text(b) })
        },
    }
}

/// The reply of the hyper test bed for a route: 200 with the request body
/// for `/echo-body`; 200 with the big chunk 128 times for
/// `/stream-big-body`; the given status with no body for `/status/{code}`;
/// 404 with no body otherwise. `None` where no response can be built.
pub fn testbed_reply(route: TestbedRoute) -> (r: Option<ServiceReply>)
    ensures
        match route {
            TestbedRoute::EchoBody => r == Some(
                ServiceReply { status: 200, body: ReplyBody::EchoRequest },
            ),
            TestbedRoute::StreamBigBody => r matches Some(rep) && rep.status == 200
                && (rep.body matches ReplyBody::Repeat { piece, n } && piece@ == big_chunk() && n
                == 128),
            TestbedRoute::Status(c) => if valid_status(c) {
                r == Some(ServiceReply { status: c, body: ReplyBody::Empty })
            } else {
                r is None
            },
            TestbedRoute::BadNumber => r is None,
            TestbedRoute::NotFound => r == Some(ServiceReply { status: 404, body: ReplyBody::Empty }),
        },
{
    match route {
        TestbedRoute::EchoBody => Some(ServiceReply { status: 200, body: ReplyBody::EchoRequest }),
        TestbedRoute::StreamBigBody => {
            let chunk = str_repeat("this is a big chunk", 256);
            let piece = copy_all(chunk.as_str().as_bytes());
            Some(ServiceReply { status: 200, body: ReplyBody::Repeat { piece, n: 128 } })
        },
        TestbedRoute::Status(c) => if 100 <= c && c <= 999 {
            Some(ServiceReply { status: c, body: ReplyBody::Empty })
        } else {
            None
        },
        TestbedRoute::BadNumber => None,
        TestbedRoute::NotFound => Some(ServiceReply { status: 404, body: ReplyBody::Empty }),
    }
}

} // verus!
