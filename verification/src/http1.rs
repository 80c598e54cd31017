//! HTTP/1 message heads: request methods, and the bytes of a request or
//! response head.
use vstd::prelude::*;

use crate::headers::pairs_view;
use crate::request::{reason_bytes, reason_phrase};
use crate::types::{content_length_name, decimal, format_decimal};

verus! {

/// An HTTP method, see https://httpwg.org/specs/rfc9110.html#methods
#[derive(Debug, Clone, PartialEq, Eq)]
pub enum Method {
    Get,
    Head,
    Post,
    Put,
    Delete,
    Connect,
    Options,
    Trace,
    /// any other method, by its name
    Other(Vec<u8>),
}

/// The method names this library knows, in bytes.
pub open spec fn get_name() -> Seq<u8> {
    seq![0x47u8, 0x45, 0x54]
}

pub open spec fn head_name() -> Seq<u8> {
    seq![0x48u8, 0x45, 0x41, 0x44]
}

pub open spec fn post_name() -> Seq<u8> {
    seq![0x50u8, 0x4f, 0x53, 0x54]
}

pub open spec fn put_name() -> Seq<u8> {
    seq![0x50u8, 0x55, 0x54]
}

pub open spec fn delete_name() -> Seq<u8> {
    seq![0x44u8, 0x45, 0x4c, 0x45, 0x54, 0x45]
}

pub open spec fn connect_name() -> Seq<u8> {
    seq![0x43u8, 0x4f, 0x4e, 0x4e, 0x45, 0x43, 0x54]
}

pub open spec fn options_name() -> Seq<u8> {
    seq![0x4fu8, 0x50, 0x54, 0x49, 0x4f, 0x4e, 0x53]
}

pub open spec fn trace_name() -> Seq<u8> {
    seq![0x54u8, 0x52, 0x41, 0x43, 0x45]
}

/// The name of a method, in bytes.
pub open spec fn method_name(m: Method) -> Seq<u8> {
    match m {
        Method::Get => get_name(),
        Method::Head => head_name(),
        Method::Post => post_name(),
        Method::Put => put_name(),
        Method::Delete => delete_name(),
        Method::Connect => connect_name(),
        Method::Options => options_name(),
        Method::Trace => trace_name(),
        Method::Other(b) => b@,
    }
}

/// The method a name stands for: a known one, or `Other`.
pub open spec fn method_of(b: Seq<u8>) -> Method {
    if b == get_name() {
        Method::Get
    } else if b == head_name() {
        Method::Head
    } else if b == post_name() {
        Method::Post
    } else if b == put_name() {
        Method::Put
    } else if b == delete_name() {
        Method::Delete
    } else if b == connect_name() {
        Method::Connect
    } else if b == options_name() {
        Method::Options
    } else if b == trace_name() {
        Method::Trace
    } else {
        Method::Other(arbitrary())
    }
}

fn same(a: &[u8], b: &[u8]) -> (r: bool)
    ensures
        r == (a@ == b@),
{
    if a.len() != b.len() {
        return false;
    }
    let mut k: usize = 0;
    while k < a.len()
        invariant
            a@.len() == b@.len(),
            k <= a@.len(),
            forall|j: int| 0 <= j < k ==> a@[j] == b@[j],
        decreases a@.len() - k,
    {
        if a[k] != b[k] {
            return false;
        }
        k = k + 1;
    }
    assert(a@ =~= b@);
    true
}

/// Appends the bytes `b`.
pub(crate) fn push_all(out: &mut Vec<u8>, b: &[u8])
    ensures
        final(out)@ == old(out)@ + b@,
{
    let mut k: usize = 0;
    let ghost start = out@;
    while k < b.len()
        invariant
            k <= b@.len(),
            out@ == start + b@.subrange(0, k as int),
        decreases b@.len() - k,
    {
        out.push(b[k]);
        k = k + 1;
        assert(out@ =~= start + b@.subrange(0, k as int));
    }
    assert(b@.subrange(0, k as int) =~= b@);
}

fn bytes_of(b: &[u8]) -> (r: Vec<u8>)
    ensures
        r@ == b@,
{
    let mut out = Vec::new();
    push_all(&mut out, b);
    assert(out@ =~= b@);
    out
}

impl Method {
    /// The method a name stands for; unknown names are kept as `Other`.
    pub fn from_bytes(b: &[u8]) -> (r: Method)
        ensures
            method_name(r) == b@,
            !(method_of(b@) is Other) ==> r == method_of(b@),
            method_of(b@) is Other ==> r is Other,
    {
        let get: [u8; 3] = [0x47, 0x45, 0x54];
        let head: [u8; 4] = [0x48, 0x45, 0x41, 0x44];
        let post: [u8; 4] = [0x50, 0x4f, 0x53, 0x54];
        let put: [u8; 3] = [0x50, 0x55, 0x54];
        let delete: [u8; 6] = [0x44, 0x45, 0x4c, 0x45, 0x54, 0x45];
        let connect: [u8; 7] = [0x43, 0x4f, 0x4e, 0x4e, 0x45, 0x43, 0x54];
        let options: [u8; 7] = [0x4f, 0x50, 0x54, 0x49, 0x4f, 0x4e, 0x53];
        let trace: [u8; 5] = [0x54, 0x52, 0x41, 0x43, 0x45];
        proof {
            assert(get@ =~= get_name());
            assert(head@ =~= head_name());
            assert(post@ =~= post_name());
            assert(put@ =~= put_name());
            assert(delete@ =~= delete_name());
            assert(connect@ =~= connect_name());
            assert(options@ =~= options_name());
            assert(trace@ =~= trace_name());
        }
        if same(b, get.as_slice()) {
            Method::Get
        } else if same(b, head.as_slice()) {
            Method::Head
        } else if same(b, post.as_slice()) {
            Method::Post
        } else if same(b, put.as_slice()) {
            Method::Put
        } else if same(b, delete.as_slice()) {
            Method::Delete
        } else if same(b, connect.as_slice()) {
            Method::Connect
        } else if same(b, options.as_slice()) {
            Method::Options
        } else if same(b, trace.as_slice()) {
            Method::Trace
        } else {
            Method::Other(bytes_of(b))
        }
    }

    /// The method's name, in bytes.
    pub fn into_chunk(self) -> (r: Vec<u8>)
        ensures
            r@ == method_name(self),
    {
        let b: Vec<u8> = match self {
            Method::Get => bytes_of([0x47u8, 0x45, 0x54].as_slice()),
            Method::Head => bytes_of([0x48u8, 0x45, 0x41, 0x44].as_slice()),
            Method::Post => bytes_of([0x50u8, 0x4f, 0x53, 0x54].as_slice()),
            Method::Put => bytes_of([0x50u8, 0x55, 0x54].as_slice()),
            Method::Delete => bytes_of([0x44u8, 0x45, 0x4c, 0x45, 0x54, 0x45].as_slice()),
            Method::Connect => bytes_of([0x43u8, 0x4f, 0x4e, 0x4e, 0x45, 0x43, 0x54].as_slice()),
            Method::Options => bytes_of([0x4fu8, 0x50, 0x54, 0x49, 0x4f, 0x4e, 0x53].as_slice()),
            Method::Trace => bytes_of([0x54u8, 0x52, 0x41, 0x43, 0x45].as_slice()),
            Method::Other(b) => b,
        };
        proof {
            assert(get_name() =~= seq![0x47u8, 0x45, 0x54]);
        }
        b
    }
}

/// A method's name names that method again: known methods come back as
/// themselves, others by the same name.
pub proof fn law_method_name_roundtrip(m: Method)
    ensures
        !(m is Other) ==> method_of(method_name(m)) == m,
{
}

/// HTTP versions.
#[derive(Debug, Clone, Copy, PartialEq, Eq, Structural)]
pub enum Version {
    Http09,
    Http10,
    Http11,
    Http2,
    Http3,
}

/// Why a head cannot be written as HTTP/1.
#[derive(Debug, Clone, Copy, PartialEq, Eq, Structural)]
pub enum EncodeError {
    /// only HTTP/1.0 and HTTP/1.1 heads can be written
    UnsupportedVersion(Version),
}

/// The bytes `": "`, `"\r\n"`.
pub open spec fn colon_sp() -> Seq<u8> {
    seq![0x3au8, 0x20]
}

pub open spec fn crlf() -> Seq<u8> {
    seq![0x0du8, 0x0a]
}

/// Header lines: `name: value\r\n` for each header, in order.
pub open spec fn header_lines(hs: Seq<(Seq<u8>, Seq<u8>)>) -> Seq<u8>
    decreases hs.len(),
{
    if hs.len() == 0 {
        Seq::empty()
    } else {
        header_lines(hs.drop_last()) + hs.last().0 + colon_sp() + hs.last().1 + crlf()
    }
}

/// Writes the header lines.
pub fn encode_headers(headers: &Vec<(Vec<u8>, Vec<u8>)>, out: &mut Vec<u8>)
    ensures
        final(out)@ == old(out)@ + header_lines(pairs_view(headers@)),
{
    let ghost start = out@;
    let mut k: usize = 0;
    proof {
        assert(pairs_view(headers@).subrange(0, 0) =~= Seq::<(Seq<u8>, Seq<u8>)>::empty());
        assert(out@ =~= start + header_lines(pairs_view(headers@).subrange(0, 0)));
    }
    while k < headers.len()
        invariant
            k <= headers@.len(),
            out@ == start + header_lines(pairs_view(headers@).subrange(0, k as int)),
        decreases headers@.len() - k,
    {
        let ghost pre1 = pairs_view(headers@).subrange(0, k + 1);
        proof {
            assert(pre1.drop_last() =~= pairs_view(headers@).subrange(0, k as int));
            assert(pre1.last() == (headers@[k as int].0@, headers@[k as int].1@));
        }
        push_all(out, headers[k].0.as_slice());
        push_all(out, [0x3au8, 0x20].as_slice());
        push_all(out, headers[k].1.as_slice());
        push_all(out, [0x0du8, 0x0a].as_slice());
        proof {
            assert(out@ =~= start + header_lines(pre1));
        }
        k = k + 1;
    }
    proof {
        assert(pairs_view(headers@).subrange(0, k as int) =~= pairs_view(headers@));
    }
}

/// ` HTTP/1.0\r\n` or ` HTTP/1.1\r\n`, after a request line's path.
pub open spec fn request_version_suffix(v: Version) -> Seq<u8> {
    if v == Version::Http10 {
        seq![0x20u8, 0x48, 0x54, 0x54, 0x50, 0x2f, 0x31, 0x2e, 0x30, 0x0d, 0x0a]
    } else {
        seq![0x20u8, 0x48, 0x54, 0x54, 0x50, 0x2f, 0x31, 0x2e, 0x31, 0x0d, 0x0a]
    }
}

/// The head of a request: `METHOD path HTTP/1.x\r\n`, the header lines, and
/// an empty line.
pub open spec fn request_head_bytes(
    m: Method,
    path: Seq<u8>,
    v: Version,
    hs: Seq<(Seq<u8>, Seq<u8>)>,
) -> Seq<u8> {
    method_name(m) + seq![0x20u8] + path + request_version_suffix(v) + header_lines(hs) + crlf()
}

/// Writes the head of a request; only HTTP/1.0 and HTTP/1.1 are written
/// (otherwise nothing is).
pub fn encode_request(
    method: Method,
    path: &[u8],
    version: Version,
    headers: &Vec<(Vec<u8>, Vec<u8>)>,
    out: &mut Vec<u8>,
) -> (r: Result<(), EncodeError>)
    ensures
        version == Version::Http10 || version == Version::Http11 ==> r is Ok && final(out)@
            == old(out)@ + request_head_bytes(method, path@, version, pairs_view(headers@)),
        !(version == Version::Http10 || version == Version::Http11) ==> r == Err::<
            (),
            EncodeError,
        >(EncodeError::UnsupportedVersion(version)) && final(out)@ == old(out)@,
{
    let ghost start = out@;
    let ghost mname = method_name(method);
    let suffix: [u8; 11] = match version {
        Version::Http10 => [0x20, 0x48, 0x54, 0x54, 0x50, 0x2f, 0x31, 0x2e, 0x30, 0x0d, 0x0a],
        Version::Http11 => [0x20, 0x48, 0x54, 0x54, 0x50, 0x2f, 0x31, 0x2e, 0x31, 0x0d, 0x0a],
        _ => {
            return Err(EncodeError::UnsupportedVersion(version));
        },
    };
    assert(suffix@ =~= request_version_suffix(version));
    let m = method.into_chunk();
    push_all(out, m.as_slice());
    push_all(out, [0x20u8].as_slice());
    push_all(out, path);
    push_all(out, suffix.as_slice());
    encode_headers(headers, out);
    push_all(out, [0x0du8, 0x0a].as_slice());
    proof {
        assert(out@ =~= start + request_head_bytes(method, path@, version, pairs_view(headers@)));
    }
    Ok(())
}

/// The three ASCII digits of a status code.
pub open spec fn status_code_digits(code: u16) -> Seq<u8> {
    seq![
        (0x30 + code / 100) as u8,
        (0x30 + (code / 10) % 10) as u8,
        (0x30 + code % 10) as u8,
    ]
}

/// The three ASCII digits of a status code between 100 and 999.
pub fn encode_status_code(code: u16) -> (r: [u8; 3])
    requires
        100 <= code <= 999,
    ensures
        r@ == status_code_digits(code),
{
    let r: [u8; 3] = [
        (0x30 + code / 100) as u8,
        (0x30 + (code / 10) % 10) as u8,
        (0x30 + code % 10) as u8,
    ];
    assert(r@ =~= status_code_digits(code));
    r
}

/// `HTTP/1.0 ` or `HTTP/1.1 `, starting a status line.
pub open spec fn response_version_prefix(v: Version) -> Seq<u8> {
    if v == Version::Http10 {
        seq![0x48u8, 0x54, 0x54, 0x50, 0x2f, 0x31, 0x2e, 0x30, 0x20]
    } else {
        seq![0x48u8, 0x54, 0x54, 0x50, 0x2f, 0x31, 0x2e, 0x31, 0x20]
    }
}

/// The head of a response: `HTTP/1.x CODE reason\r\n`, the header lines, and
/// an empty line.
pub open spec fn response_head_bytes(
    v: Version,
    code: u16,
    reason: Seq<u8>,
    hs: Seq<(Seq<u8>, Seq<u8>)>,
) -> Seq<u8> {
    response_version_prefix(v) + status_code_digits(code) + seq![0x20u8] + reason + crlf()
        + header_lines(hs) + crlf()
}

/// Writes the head of a response, with the status code's canonical reason
/// phrase (or `Unknown`); only HTTP/1.0 and HTTP/1.1 are written (otherwise
/// nothing is).
pub fn encode_response(
    version: Version,
    code: u16,
    headers: &Vec<(Vec<u8>, Vec<u8>)>,
    out: &mut Vec<u8>,
) -> (r: Result<(), EncodeError>)
    requires
        100 <= code <= 999,
    ensures
        version == Version::Http10 || version == Version::Http11 ==> r is Ok && final(out)@
            == old(out)@ + response_head_bytes(
            version,
            code,
            reason_phrase(code),
            pairs_view(headers@),
        ),
        !(version == Version::Http10 || version == Version::Http11) ==> r == Err::<
            (),
            EncodeError,
        >(EncodeError::UnsupportedVersion(version)) && final(out)@ == old(out)@,
{
    let ghost start = out@;
    let prefix: [u8; 9] = match version {
        Version::Http10 => [0x48, 0x54, 0x54, 0x50, 0x2f, 0x31, 0x2e, 0x30, 0x20],
        Version::Http11 => [0x48, 0x54, 0x54, 0x50, 0x2f, 0x31, 0x2e, 0x31, 0x20],
        _ => {
            return Err(EncodeError::UnsupportedVersion(version));
        },
    };
    assert(prefix@ =~= response_version_prefix(version));
    push_all(out, prefix.as_slice());
    let digits = encode_status_code(code);
    push_all(out, digits.as_slice());
    push_all(out, [0x20u8].as_slice());
    let reason = reason_bytes(code);
    push_all(out, reason);
    push_all(out, [0x0du8, 0x0a].as_slice());
    encode_headers(headers, out);
    push_all(out, [0x0du8, 0x0a].as_slice());
    proof {
        assert(out@ =~= start + response_head_bytes(version, code, reason_phrase(code), pairs_view(headers@)));
    }
    Ok(())
}

/// 1xx status codes are informational.
pub open spec fn is_informational(code: u16) -> bool {
    100 <= code <= 199
}

/// 204 and 304 responses must not have a body.
pub fn means_empty_body(code: u16) -> (r: bool)
    ensures
        r == (code == 204 || code == 304),
{
    code == 204 || code == 304
}


/// How a request body is framed on HTTP/1.
#[derive(Debug, Clone, Copy, PartialEq, Eq, Structural)]
pub enum BodyWriteMode {
    /// no body
    Empty,
    /// exactly `content-length` bytes
    ContentLength,
    /// chunked transfer coding
    Chunked,
}

/// The headers without any named `n`, in order.
pub open spec fn without_name(hs: Seq<(Seq<u8>, Seq<u8>)>, n: Seq<u8>) -> Seq<(Seq<u8>, Seq<u8>)>
    decreases hs.len(),
{
    if hs.len() == 0 {
        Seq::empty()
    } else if hs.last().0 == n {
        without_name(hs.drop_last(), n)
    } else {
        without_name(hs.drop_last(), n).push(hs.last())
    }
}

/// The framing of a request body of known (or unknown) length, and the
/// headers that announce it: a known non-zero length replaces any
/// `content-length` header with the right one.
pub open spec fn request_body_spec(hs: Seq<(Seq<u8>, Seq<u8>)>, content_len: Option<u64>) -> (
    BodyWriteMode,
    Seq<(Seq<u8>, Seq<u8>)>,
) {
    match content_len {
        Some(0) => (BodyWriteMode::Empty, hs),
        Some(n) => (
            BodyWriteMode::ContentLength,
            without_name(hs, content_length_name()).push((content_length_name(), decimal(n as nat))),
        ),
        None => (BodyWriteMode::Chunked, hs),
    }
}

/// Chooses how to frame a request body, and announces its length.
pub fn prepare_request_body(headers: &mut Vec<(Vec<u8>, Vec<u8>)>, content_len: Option<u64>) -> (r:
    BodyWriteMode)
    ensures
        r == request_body_spec(pairs_view(old(headers)@), content_len).0,
        pairs_view(final(headers)@) == request_body_spec(pairs_view(old(headers)@), content_len).1,
{
    let n = match content_len {
        None => {
            return BodyWriteMode::Chunked;
        },
        Some(0) => {
            return BodyWriteMode::Empty;
        },
        Some(n) => n,
    };
    let name: [u8; 14] = [
        0x63, 0x6f, 0x6e, 0x74, 0x65, 0x6e, 0x74, 0x2d, 0x6c, 0x65, 0x6e, 0x67, 0x74, 0x68,
    ];
    assert(name@ =~= content_length_name());
    let ghost old_hs = pairs_view(headers@);
    let mut kept: Vec<(Vec<u8>, Vec<u8>)> = Vec::new();
    let mut k: usize = 0;
    assert(old_hs.subrange(0, 0) =~= Seq::<(Seq<u8>, Seq<u8>)>::empty());
    assert(pairs_view(kept@) =~= Seq::<(Seq<u8>, Seq<u8>)>::empty());
    while k < headers.len()
        invariant
            k <= headers@.len(),
            old_hs == pairs_view(headers@),
            name@ == content_length_name(),
            pairs_view(kept@) == without_name(old_hs.subrange(0, k as int), content_length_name()),
        decreases headers@.len() - k,
    {
        let ghost pre1 = old_hs.subrange(0, k + 1);
        proof {
            assert(pre1.drop_last() =~= old_hs.subrange(0, k as int));
            assert(pre1.last() == (headers@[k as int].0@, headers@[k as int].1@));
        }
        if !same(headers[k].0.as_slice(), name.as_slice()) {
            let ghost before = kept@;
            kept.push((bytes_of(headers[k].0.as_slice()), bytes_of(headers[k].1.as_slice())));
            proof {
                assert(pairs_view(kept@) =~= pairs_view(before).push(pre1.last()));
            }
        }
        k = k + 1;
    }
    assert(old_hs.subrange(0, k as int) =~= old_hs);
    let ghost before = kept@;
    kept.push((bytes_of(name.as_slice()), format_decimal(n)));
    proof {
        assert(pairs_view(kept@) =~= pairs_view(before).push(
            (content_length_name(), decimal(n as nat)),
        ));
    }
    *headers = kept;
    BodyWriteMode::ContentLength
}

} // verus!
