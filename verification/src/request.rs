//! The request a handler gets: the head of an HTTP/2 request, with its
//! scheme, path, authority and header names checked and parsed as URI and
//! header types.
use vstd::prelude::*;

use http::header::HeaderName;
use http::uri::{Authority, PathAndQuery, Scheme};
use http::StatusCode;
use vstd::utf8::{decode_utf8, encode_utf8, valid_utf8};

use crate::headers::{pairs_view, RequestHead, RequestHeadView};
use crate::http1::{method_name, Method, Version};
use crate::roll::{lowercase, str_from_utf8};

verus! {

#[verifier::external_type_specification]
#[verifier::external_body]
pub struct ExHeaderName(HeaderName);

/// A byte `Scheme::from_str` accepts: an ASCII letter or digit, `+`, `-`,
/// `.` or `~`.
pub open spec fn is_scheme_byte(b: u8) -> bool {
    ||| 0x30 <= b <= 0x39
    ||| 0x41 <= b <= 0x5a
    ||| 0x61 <= b <= 0x7a
    ||| b == 0x2b || b == 0x2d || b == 0x2e || b == 0x7e
}

/// What `Scheme::from_str` accepts: at most 64 scheme bytes.
pub open spec fn scheme_accepted(b: Seq<u8>) -> bool {
    b.len() <= 64 && forall|i: int| 0 <= i < b.len() ==> is_scheme_byte(#[trigger] b[i])
}

/// Whether `Authority::from_str` accepts the text.
pub uninterp spec fn authority_parses(s: Seq<char>) -> bool;

/// Whether `PathAndQuery::from_str` accepts the text.
pub uninterp spec fn path_parses(s: Seq<char>) -> bool;

/// A byte of an HTTP token (`tchar`), as `HeaderName::from_bytes` accepts
/// it: an ASCII letter or digit, or one of ``!#$%&'*+-.^_`|~``.
pub open spec fn is_token_byte(b: u8) -> bool {
    ||| 0x30 <= b <= 0x39
    ||| 0x41 <= b <= 0x5a
    ||| 0x61 <= b <= 0x7a
    ||| b == 0x21 || b == 0x23 || b == 0x24 || b == 0x25 || b == 0x26 || b == 0x27
    ||| b == 0x2a || b == 0x2b || b == 0x2d || b == 0x2e || b == 0x5e || b == 0x5f
    ||| b == 0x60 || b == 0x7c || b == 0x7e
}

/// What `HeaderName::from_bytes` accepts: from 1 to 65535 token bytes.
pub open spec fn header_name_valid(b: Seq<u8>) -> bool {
    1 <= b.len() <= 65535 && forall|i: int| 0 <= i < b.len() ==> is_token_byte(#[trigger] b[i])
}

/// The reason phrase `StatusCode::canonical_reason` gives a status code.
pub uninterp spec fn canonical_reason_of(code: u16) -> Option<Seq<char>>;

/// `k` is where the first `c` in `s` is, or the length when there is none.
pub open spec fn is_first(s: Seq<u8>, c: u8, k: int) -> bool {
    &&& 0 <= k <= s.len()
    &&& forall|j: int| 0 <= j < k ==> s[j] != c
    &&& k < s.len() ==> s[k] == c
}

/// Where the first `c` in `s` is, or the length when there is none.
pub open spec fn first_index(s: Seq<u8>, c: u8) -> int {
    choose|k: int| is_first(s, c, k)
}

/// The bytes of `s` before its first `c` (all of `s` when there is none).
pub open spec fn before_first(s: Seq<u8>, c: u8) -> Seq<u8> {
    s.take(first_index(s, c))
}

/// `first_index` is the one position that `is_first` describes.
pub proof fn lemma_first_index(s: Seq<u8>, c: u8, k: int)
    requires
        is_first(s, c, k),
    ensures
        first_index(s, c) == k,
{
    let f = first_index(s, c);
    assert(is_first(s, c, f));
    if f < k {
        assert(s[f] == c);
    } else if k < f {
        assert(s[k] == c);
    }
}

fn find_byte(s: &[u8], c: u8) -> (k: usize)
    ensures
        k == first_index(s@, c),
        is_first(s@, c, k as int),
{
    let mut k: usize = 0;
    while k < s.len()
        invariant
            k <= s@.len(),
            forall|j: int| 0 <= j < k ==> s@[j] != c,
        decreases s@.len() - k,
    {
        if s[k] == c {
            proof {
                lemma_first_index(s@, c, k as int);
            }
            return k;
        }
        k = k + 1;
    }
    proof {
        lemma_first_index(s@, c, k as int);
    }
    k
}

/// `/` in place of nothing.
pub open spec fn or_root(s: Seq<u8>) -> Seq<u8> {
    if s.len() == 0 {
        seq![0x2fu8]
    } else {
        s
    }
}

/// The text a path-and-query keeps of what it was parsed from: what comes
/// before the fragment (`#`), or `/` when that is empty.
pub open spec fn path_and_query_text(b: Seq<u8>) -> Seq<u8> {
    or_root(before_first(b, 0x23))
}

/// The path of a path-and-query: what comes before the query (`?`), or `/`
/// when that is empty.
pub open spec fn path_component(pq: Seq<u8>) -> Seq<u8> {
    or_root(before_first(pq, 0x3f))
}

/// `http::uri::Scheme::from_str`: a scheme, when the text is at most 64
/// scheme bytes (its source checks each byte against a table of letters,
/// digits and `+-.~`), given back as its text (`as_str`), which its source
/// keeps as it was parsed.
#[verifier::external_body]
fn parse_scheme(s: &str) -> (r: Option<Vec<u8>>)
    ensures
        r is Some <==> scheme_accepted(encode_utf8(s@)),
        r matches Some(t) ==> t@ == encode_utf8(s@),
{
    match s.parse::<Scheme>() {
        Ok(x) => Some(x.as_str().as_bytes().to_vec()),
        Err(_) => None,
    }
}

/// `http::uri::Authority::from_str`: an authority, when the text is one
/// (when, is named), given back as its text (`as_str`), which its source
/// copies whole from what was parsed.
#[verifier::external_body]
fn parse_authority(s: &str) -> (r: Option<Vec<u8>>)
    ensures
        r is Some <==> authority_parses(s@),
        r matches Some(t) ==> t@ == encode_utf8(s@),
{
    match s.parse::<Authority>() {
        Ok(x) => Some(x.as_str().as_bytes().to_vec()),
        Err(_) => None,
    }
}

/// `http::uri::PathAndQuery::from_str`: a path (and query), when the text is
/// one (when, is named), given back as its text (`as_str`): its source cuts
/// the text at the fragment and gives `/` for what is then empty.
#[verifier::external_body]
fn parse_path(s: &str) -> (r: Option<Vec<u8>>)
    ensures
        r is Some <==> path_parses(s@),
        r matches Some(t) ==> t@ == path_and_query_text(encode_utf8(s@)),
{
    match s.parse::<PathAndQuery>() {
        Ok(x) => Some(x.as_str().as_bytes().to_vec()),
        Err(_) => None,
    }
}

/// `http::HeaderName::from_bytes`: a header name, when the bytes are 1 to
/// 65535 token bytes (its source maps each byte through a table that has 0
/// for the others and lower-cases the letters), with the name's text (its
/// `as_str`): the bytes, lower-cased.
#[verifier::external_body]
fn header_name_from_bytes(b: &[u8]) -> (r: Option<(HeaderName, Vec<u8>)>)
    ensures
        r is Some <==> header_name_valid(b@),
        r matches Some((_, text)) ==> text@ == b@.map_values(|c: u8| lowercase(c)),
{
    match HeaderName::from_bytes(b) {
        Ok(h) => {
            let text = h.as_str().as_bytes().to_vec();
            Some((h, text))
        },
        Err(_) => None,
    }
}

/// `http::StatusCode::canonical_reason` of a valid status code: named, as
/// the table it reads is long.
#[verifier::external_body]
fn canonical_reason(code: u16) -> (r: Option<&'static str>)
    requires
        100 <= code <= 999,
    ensures
        match r {
            Some(s) => canonical_reason_of(code) == Some(s@),
            None => canonical_reason_of(code) is None,
        },
{
    match StatusCode::from_u16(code) {
        Ok(s) => s.canonical_reason(),
        Err(_) => None,
    }
}

/// The reason phrase a response status line carries: the canonical one, or
/// `Unknown`.
pub open spec fn reason_phrase(code: u16) -> Seq<u8> {
    match canonical_reason_of(code) {
        Some(s) => vstd::utf8::encode_utf8(s),
        None => vstd::utf8::encode_utf8("Unknown"@),
    }
}

/// The reason phrase of a status code.
pub fn reason_bytes(code: u16) -> (r: &'static [u8])
    requires
        100 <= code <= 999,
    ensures
        r@ == reason_phrase(code),
{
    match canonical_reason(code) {
        Some(s) => s.as_bytes(),
        None => {
            let u = "Unknown";
            u.as_bytes()
        },
    }
}

/// The URI of a request, as the text of its parts.
#[derive(Debug, Clone, PartialEq, Eq)]
pub struct RequestUri {
    pub scheme: Vec<u8>,
    pub authority: Vec<u8>,
    pub path_and_query: Vec<u8>,
}

impl RequestUri {
    /// The path: the path-and-query before its query, or `/`.
    pub fn path(&self) -> (r: Vec<u8>)
        ensures
            r@ == path_component(self.path_and_query@),
    {
        let pq = self.path_and_query.as_slice();
        let k = find_byte(pq, 0x3f);
        let mut out: Vec<u8> = Vec::new();
        if k == 0 {
            out.push(0x2f);
            assert(out@ =~= seq![0x2fu8]);
            return out;
        }
        let mut i: usize = 0;
        while i < k
            invariant
                i <= k,
                k <= pq@.len(),
                out@ == pq@.take(i as int),
            decreases k - i,
        {
            out.push(pq[i]);
            i = i + 1;
            assert(out@ =~= pq@.take(i as int));
        }
        out
    }
}

/// A request, as a handler gets it.
pub struct Request {
    pub method: Method,
    pub uri: RequestUri,
    pub version: Version,
    pub headers: Vec<(HeaderName, Vec<u8>)>,
    /// the text of each header's name, lower-cased, in the same order
    pub header_names: Vec<Vec<u8>>,
}

/// Why a request head cannot become a request.
#[derive(Debug, Clone, Copy, PartialEq, Eq, Structural)]
pub enum RequestError {
    /// the method is not UTF-8
    MethodNotUtf8,
    /// the scheme is not a valid URI scheme
    InvalidScheme,
    /// the path is not a valid URI path (and query)
    InvalidPath,
    /// the authority (or the host header) is not a valid URI authority
    InvalidAuthority,
    /// a header name is invalid
    InvalidHeaderName,
    /// there is no authority, and no host header
    MissingAuthority,
}

/// The bytes are UTF-8 text that `Scheme::from_str` accepts.
pub open spec fn scheme_ok(b: Seq<u8>) -> bool {
    valid_utf8(b) && scheme_accepted(b)
}

/// The bytes are UTF-8 text that `PathAndQuery::from_str` accepts.
pub open spec fn path_ok(b: Seq<u8>) -> bool {
    valid_utf8(b) && path_parses(decode_utf8(b))
}

/// The bytes are UTF-8 text that `Authority::from_str` accepts.
pub open spec fn authority_ok(b: Seq<u8>) -> bool {
    valid_utf8(b) && authority_parses(decode_utf8(b))
}

/// What becomes of a request head: the first check that fails, in this
/// order, or a request.
pub open spec fn request_check(h: RequestHeadView) -> Result<(), RequestError> {
    if !valid_utf8(h.method) {
        Err(RequestError::MethodNotUtf8)
    } else if !scheme_ok(h.scheme) {
        Err(RequestError::InvalidScheme)
    } else if !path_ok(h.path) {
        Err(RequestError::InvalidPath)
    } else if h.authority matches Some(a) && !authority_ok(a) {
        Err(RequestError::InvalidAuthority)
    } else if exists|i: int| 0 <= i < h.headers.len() && !header_name_valid(#[trigger] h.headers[i].0) {
        Err(RequestError::InvalidHeaderName)
    } else if h.authority is None {
        Err(RequestError::MissingAuthority)
    } else {
        Ok(())
    }
}

fn parse_text_authority(b: &Vec<u8>) -> (r: Option<Vec<u8>>)
    ensures
        r is Some <==> authority_ok(b@),
        r matches Some(t) ==> t@ == b@,
{
    broadcast use vstd::utf8::decode_utf8_encode_utf8;

    match str_from_utf8(b.as_slice()) {
        Ok(s) => parse_authority(s),
        Err(_) => None,
    }
}

/// Turns a request head into the request a handler gets: an HTTP/2 request
/// whose URI is made of the scheme, the authority and the path.
pub fn into_request(head: RequestHead) -> (r: Result<Request, RequestError>)
    ensures
        match request_check(head@) {
            Err(e) => r == Err::<Request, RequestError>(e),
            Ok(()) => r matches Ok(req) && method_name(req.method) == head@.method && req.version
                == Version::Http2 && req.uri.scheme@ == head@.scheme && Some(req.uri.authority@)
                == head@.authority && req.uri.path_and_query@ == path_and_query_text(head@.path) && req.headers@.len() == head@.headers.len() && (forall|i: int|
                0 <= i < req.headers@.len() ==> #[trigger] req.headers@[i].1@ == head@.headers[i].1)
                && req.header_names@.len() == head@.headers.len() && (forall|i: int|
                0 <= i < req.header_names@.len() ==> #[trigger] req.header_names@[i]@
                == head@.headers[i].0.map_values(|c: u8| lowercase(c))),
        },
{
    broadcast use vstd::utf8::decode_utf8_encode_utf8;

    let ghost hv = head@;
    let RequestHead { method, scheme, path, authority, headers } = head;
    if str_from_utf8(method.as_slice()).is_err() {
        return Err(RequestError::MethodNotUtf8);
    }
    let scheme = match str_from_utf8(scheme.as_slice()) {
        Ok(s) => parse_scheme(s),
        Err(_) => None,
    };
    let scheme = match scheme {
        Some(s) => s,
        None => {
            return Err(RequestError::InvalidScheme);
        },
    };
    let path = match str_from_utf8(path.as_slice()) {
        Ok(s) => parse_path(s),
        Err(_) => None,
    };
    let path = match path {
        Some(p) => p,
        None => {
            return Err(RequestError::InvalidPath);
        },
    };
    let authority = match &authority {
        Some(a) => match parse_text_authority(a) {
            Some(a) => Some(a),
            None => {
                return Err(RequestError::InvalidAuthority);
            },
        },
        None => None,
    };
    let mut out: Vec<(HeaderName, Vec<u8>)> = Vec::new();
    let mut rest = headers;
    let n = rest.len();
    let mut names: Vec<Vec<u8>> = Vec::new();
    let mut k: usize = 0;
    while k < n
        invariant
            hv == head@,
            n == hv.headers.len(),
            k <= n,
            valid_utf8(hv.method),
            scheme_ok(hv.scheme),
            path_ok(hv.path),
            hv.authority matches Some(a) ==> authority_ok(a),
            authority is Some <==> hv.authority is Some,
            authority matches Some(a) ==> Some(a@) == hv.authority,
            scheme@ == hv.scheme,
            path@ == path_and_query_text(hv.path),
            rest@.len() == n - k,
            forall|i: int| 0 <= i < rest@.len() ==> #[trigger] pairs_view(rest@)[i] == hv.headers[k + i],
            out@.len() == k,
            forall|i: int| 0 <= i < k ==> header_name_valid(#[trigger] hv.headers[i].0),
            forall|i: int| 0 <= i < k ==> #[trigger] out@[i].1@ == hv.headers[i].1,
            names@.len() == k,
            forall|i: int| 0 <= i < k ==> #[trigger] names@[i]@ == hv.headers[i].0.map_values(
                |c: u8| lowercase(c),
            ),
        decreases n - k,
    {
        let ghost r0 = rest@;
        let (name, value) = rest.remove(0);
        proof {
            assert(pairs_view(r0)[0] == (name@, value@));
            assert forall|i: int| 0 <= i < rest@.len() implies #[trigger] pairs_view(rest@)[i]
                == hv.headers[k + 1 + i] by {
                assert(rest@[i] == r0[i + 1]);
                assert(pairs_view(r0)[i + 1] == hv.headers[k + i + 1]);
            }
        }
        let (hn, text) = match header_name_from_bytes(name.as_slice()) {
            Some(x) => x,
            None => {
                proof {
                    assert(name@ == hv.headers[k as int].0);
                    assert(!header_name_valid(hv.headers[k as int].0));
                }
                return Err(RequestError::InvalidHeaderName);
            },
        };
        out.push((hn, value));
        names.push(text);
        k = k + 1;
    }
    let authority = match authority {
        Some(a) => a,
        None => {
            return Err(RequestError::MissingAuthority);
        },
    };
    let uri = RequestUri { scheme, authority, path_and_query: path };
    let method = Method::from_bytes(method.as_slice());
    Ok(Request { method, uri, version: Version::Http2, headers: out, header_names: names })
}

} // verus!
