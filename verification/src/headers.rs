//! Header blocks: the CONTINUATION frames that complete one, and what a
//! decoded block means (a request head, or trailers).
use vstd::prelude::*;

use crate::frame::{has_flag, Frame, FrameType, StreamId};
use crate::h2::{H2ConnectionError, HeadersOrTrailers};
use crate::roll::{lowercase, lowercase_byte};

verus! {

/// What the next frame does to a header block that is not complete yet,
/// for stream `s`: `Ok(true)` when it completes the block, `Ok(false)` when
/// more CONTINUATION frames must follow. `None` means the peer hung up.
pub open spec fn continuation_spec(s: StreamId, next: Option<Frame>) -> Result<
    bool,
    H2ConnectionError,
> {
    match next {
        None => Err(H2ConnectionError::ExpectedContinuationFrame { stream_id: s, frame_type: None }),
        Some(f) => if f.stream_id != s {
            Err(
                H2ConnectionError::ExpectedContinuationForStream {
                    stream_id: s,
                    continuation_stream_id: f.stream_id,
                },
            )
        } else {
            match f.frame_type {
                FrameType::Continuation(fl) => Ok(has_flag(fl.bits, 0x04)),
                other => Err(
                    H2ConnectionError::ExpectedContinuationFrame {
                        stream_id: s,
                        frame_type: Some(other),
                    },
                ),
            }
        },
    }
}

/// Checks the frame that follows an incomplete header block on stream `s`.
pub fn continuation_step(s: StreamId, next: Option<Frame>) -> (r: Result<bool, H2ConnectionError>)
    ensures
        r == continuation_spec(s, next),
{
    match next {
        None => Err(H2ConnectionError::ExpectedContinuationFrame { stream_id: s, frame_type: None }),
        Some(f) => {
            if f.stream_id.0 != s.0 {
                return Err(
                    H2ConnectionError::ExpectedContinuationForStream {
                        stream_id: s,
                        continuation_stream_id: f.stream_id,
                    },
                );
            }
            match f.frame_type {
                FrameType::Continuation(fl) => Ok(fl.contains(0x04)),
                other => Err(
                    H2ConnectionError::ExpectedContinuationFrame {
                        stream_id: s,
                        frame_type: Some(other),
                    },
                ),
            }
        },
    }
}

/// The fragments of a header block, joined.
pub open spec fn joined(frags: Seq<Vec<u8>>) -> Seq<u8>
    decreases frags.len(),
{
    if frags.len() == 0 {
        Seq::empty()
    } else {
        joined(frags.drop_last()) + frags.last()@
    }
}

/// Joins the fragments of a header block into one buffer.
pub fn join_fragments(frags: &Vec<Vec<u8>>) -> (r: Vec<u8>)
    ensures
        r@ == joined(frags@),
{
    let mut out: Vec<u8> = Vec::new();
    let mut k: usize = 0;
    while k < frags.len()
        invariant
            k <= frags@.len(),
            out@ == joined(frags@.subrange(0, k as int)),
        decreases frags@.len() - k,
    {
        let frag = &frags[k];
        let mut j: usize = 0;
        let ghost start = out@;
        while j < frag.len()
            invariant
                j <= frag@.len(),
                out@ == start + frag@.subrange(0, j as int),
            decreases frag@.len() - j,
        {
            out.push(frag[j]);
            j = j + 1;
            assert(out@ =~= start + frag@.subrange(0, j as int));
        }
        proof {
            let pre1 = frags@.subrange(0, k + 1);
            assert(pre1.drop_last() =~= frags@.subrange(0, k as int));
            assert(frag@.subrange(0, j as int) =~= frag@);
        }
        k = k + 1;
    }
    assert(frags@.subrange(0, k as int) =~= frags@);
    out
}

/// Why a decoded header block cannot be used.
#[derive(Debug, Clone, Copy, PartialEq, Eq, Structural)]
pub enum HeaderBlockError {
    /// a header with an empty name
    EmptyName,
    /// trailers cannot contain pseudo-headers
    PseudoHeaderInTrailers,
    /// a pseudo-header appears twice
    DuplicatePseudoHeader,
    /// the :path pseudo-header is empty
    EmptyPath,
    /// a request needs a :method pseudo-header
    MissingMethod,
    /// a request needs a :scheme pseudo-header
    MissingScheme,
    /// a request needs a :path pseudo-header
    MissingPath,
}

/// The pseudo-headers that matter to a request.
#[derive(Debug, Clone, Copy, PartialEq, Eq, Structural)]
pub enum Pseudo {
    Method,
    Scheme,
    Path,
    Authority,
    /// some other pseudo-header, which is ignored
    Other,
}

/// Which pseudo-header a name that starts with ':' is.
pub open spec fn pseudo_of(k: Seq<u8>) -> Pseudo {
    if k == seq![0x3au8, 0x6d, 0x65, 0x74, 0x68, 0x6f, 0x64] {
        Pseudo::Method
    } else if k == seq![0x3au8, 0x73, 0x63, 0x68, 0x65, 0x6d, 0x65] {
        Pseudo::Scheme
    } else if k == seq![0x3au8, 0x70, 0x61, 0x74, 0x68] {
        Pseudo::Path
    } else if k == seq![0x3au8, 0x61, 0x75, 0x74, 0x68, 0x6f, 0x72, 0x69, 0x74, 0x79] {
        Pseudo::Authority
    } else {
        Pseudo::Other
    }
}

/// `a` holds exactly the bytes `b`.
fn bytes_are(a: &[u8], b: &[u8]) -> (r: bool)
    ensures
        r == (a@ == b@),
{
    if a.len() != b.len() {
        return false;
    }
    let mut k: usize = 0;
    while k < a.len()
        invariant
            a@.len() == b@.len(),
            k <= a@.len(),
            forall|j: int| 0 <= j < k ==> a@[j] == b@[j],
        decreases a@.len() - k,
    {
        if a[k] != b[k] {
            return false;
        }
        k = k + 1;
    }
    assert(a@ =~= b@);
    true
}

/// Which pseudo-header the name `k` is.
pub fn pseudo_kind(k: &[u8]) -> (r: Pseudo)
    ensures
        r == pseudo_of(k@),
{
    let method: [u8; 7] = [0x3a, 0x6d, 0x65, 0x74, 0x68, 0x6f, 0x64];
    let scheme: [u8; 7] = [0x3a, 0x73, 0x63, 0x68, 0x65, 0x6d, 0x65];
    let path: [u8; 5] = [0x3a, 0x70, 0x61, 0x74, 0x68];
    let authority: [u8; 10] = [0x3a, 0x61, 0x75, 0x74, 0x68, 0x6f, 0x72, 0x69, 0x74, 0x79];
    proof {
        assert(method@ =~= seq![0x3au8, 0x6d, 0x65, 0x74, 0x68, 0x6f, 0x64]);
        assert(scheme@ =~= seq![0x3au8, 0x73, 0x63, 0x68, 0x65, 0x6d, 0x65]);
        assert(path@ =~= seq![0x3au8, 0x70, 0x61, 0x74, 0x68]);
        assert(authority@ =~= seq![0x3au8, 0x61, 0x75, 0x74, 0x68, 0x6f, 0x72, 0x69, 0x74, 0x79]);
    }
    if bytes_are(k, method.as_slice()) {
        Pseudo::Method
    } else if bytes_are(k, scheme.as_slice()) {
        Pseudo::Scheme
    } else if bytes_are(k, path.as_slice()) {
        Pseudo::Path
    } else if bytes_are(k, authority.as_slice()) {
        Pseudo::Authority
    } else {
        Pseudo::Other
    }
}

/// What the pseudo-headers and headers of a block add up to so far.
pub struct HeadAcc {
    pub method: Option<Seq<u8>>,
    pub scheme: Option<Seq<u8>>,
    pub path: Option<Seq<u8>>,
    pub authority: Option<Seq<u8>>,
    pub headers: Seq<(Seq<u8>, Seq<u8>)>,
}

pub open spec fn empty_acc() -> HeadAcc {
    HeadAcc { method: None, scheme: None, path: None, authority: None, headers: Seq::empty() }
}

/// One decoded header, added to what the block holds so far.
pub open spec fn acc_step(acc: HeadAcc, k: Seq<u8>, v: Seq<u8>, kind: HeadersOrTrailers) -> Result<
    HeadAcc,
    HeaderBlockError,
> {
    if k.len() == 0 {
        Err(HeaderBlockError::EmptyName)
    } else if k[0] == 0x3a {
        if kind == HeadersOrTrailers::Trailers {
            Err(HeaderBlockError::PseudoHeaderInTrailers)
        } else {
            match pseudo_of(k) {
                Pseudo::Method => if acc.method is Some {
                    Err(HeaderBlockError::DuplicatePseudoHeader)
                } else {
                    Ok(HeadAcc { method: Some(v), ..acc })
                },
                Pseudo::Scheme => if acc.scheme is Some {
                    Err(HeaderBlockError::DuplicatePseudoHeader)
                } else {
                    Ok(HeadAcc { scheme: Some(v), ..acc })
                },
                Pseudo::Path => if v.len() == 0 {
                    Err(HeaderBlockError::EmptyPath)
                } else if acc.path is Some {
                    Err(HeaderBlockError::DuplicatePseudoHeader)
                } else {
                    Ok(HeadAcc { path: Some(v), ..acc })
                },
                Pseudo::Authority => if acc.authority is Some {
                    Err(HeaderBlockError::DuplicatePseudoHeader)
                } else {
                    Ok(HeadAcc { authority: Some(v), ..acc })
                },
                Pseudo::Other => Ok(acc),
            }
        }
    } else {
        Ok(HeadAcc { headers: acc.headers.push((k, v)), ..acc })
    }
}

/// The decoded headers of a block, as byte sequences.
pub open spec fn pairs_view(p: Seq<(Vec<u8>, Vec<u8>)>) -> Seq<(Seq<u8>, Seq<u8>)> {
    Seq::new(p.len(), |i: int| (p[i].0@, p[i].1@))
}

/// All decoded headers of a block, in order.
pub open spec fn head_fold(pairs: Seq<(Seq<u8>, Seq<u8>)>, kind: HeadersOrTrailers) -> Result<
    HeadAcc,
    HeaderBlockError,
>
    decreases pairs.len(),
{
    if pairs.len() == 0 {
        Ok(empty_acc())
    } else {
        match head_fold(pairs.drop_last(), kind) {
            Err(e) => Err(e),
            Ok(acc) => acc_step(acc, pairs.last().0, pairs.last().1, kind),
        }
    }
}

/// The bytes `host`.
pub open spec fn host_name() -> Seq<u8> {
    seq![0x68u8, 0x6f, 0x73, 0x74]
}

/// `k` is the name `host`, in any case.
pub open spec fn is_host(k: Seq<u8>) -> bool {
    k.len() == 4 && forall|i: int| 0 <= i < 4 ==> lowercase(#[trigger] k[i]) == host_name()[i]
}

/// The value of the first `host` header, if any.
pub open spec fn first_host(hs: Seq<(Seq<u8>, Seq<u8>)>) -> Option<Seq<u8>>
    decreases hs.len(),
{
    if hs.len() == 0 {
        None
    } else if is_host(hs[0].0) {
        Some(hs[0].1)
    } else {
        first_host(hs.drop_first())
    }
}

/// The head of a request, from its header block.
pub struct RequestHead {
    pub method: Vec<u8>,
    pub scheme: Vec<u8>,
    pub path: Vec<u8>,
    /// the :authority pseudo-header, or else the first `host` header
    pub authority: Option<Vec<u8>>,
    /// the regular headers, in order
    pub headers: Vec<(Vec<u8>, Vec<u8>)>,
}

/// The head of a request, seen as byte sequences.
pub struct RequestHeadView {
    pub method: Seq<u8>,
    pub scheme: Seq<u8>,
    pub path: Seq<u8>,
    pub authority: Option<Seq<u8>>,
    pub headers: Seq<(Seq<u8>, Seq<u8>)>,
}

impl View for RequestHead {
    type V = RequestHeadView;

    open spec fn view(&self) -> RequestHeadView {
        RequestHeadView {
            method: self.method@,
            scheme: self.scheme@,
            path: self.path@,
            authority: match self.authority {
                Some(a) => Some(a@),
                None => None,
            },
            headers: pairs_view(self.headers@),
        }
    }
}

/// The request head a header block describes.
pub open spec fn request_head_spec(pairs: Seq<(Seq<u8>, Seq<u8>)>) -> Result<
    RequestHeadView,
    HeaderBlockError,
> {
    match head_fold(pairs, HeadersOrTrailers::Headers) {
        Err(e) => Err(e),
        Ok(acc) => if acc.method is None {
            Err(HeaderBlockError::MissingMethod)
        } else if acc.scheme is None {
            Err(HeaderBlockError::MissingScheme)
        } else if acc.path is None {
            Err(HeaderBlockError::MissingPath)
        } else {
            Ok(
                RequestHeadView {
                    method: acc.method->Some_0,
                    scheme: acc.scheme->Some_0,
                    path: acc.path->Some_0,
                    authority: if acc.authority is Some {
                        acc.authority
                    } else {
                        first_host(acc.headers)
                    },
                    headers: acc.headers,
                },
            )
        },
    }
}

/// The trailers a header block carries.
pub open spec fn trailers_spec(pairs: Seq<(Seq<u8>, Seq<u8>)>) -> Result<
    Seq<(Seq<u8>, Seq<u8>)>,
    HeaderBlockError,
> {
    match head_fold(pairs, HeadersOrTrailers::Trailers) {
        Err(e) => Err(e),
        Ok(acc) => Ok(acc.headers),
    }
}

fn copy_bytes(v: &Vec<u8>) -> (r: Vec<u8>)
    ensures
        r@ == v@,
{
    let mut out: Vec<u8> = Vec::new();
    let mut k: usize = 0;
    while k < v.len()
        invariant
            k <= v@.len(),
            out@ == v@.subrange(0, k as int),
        decreases v@.len() - k,
    {
        out.push(v[k]);
        k = k + 1;
        assert(out@ =~= v@.subrange(0, k as int));
    }
    assert(v@.subrange(0, k as int) =~= v@);
    out
}

/// `k` is the name `host`, in any case.
fn name_is_host(k: &Vec<u8>) -> (r: bool)
    ensures
        r == is_host(k@),
{
    if k.len() != 4 {
        return false;
    }
    let a = lowercase_byte(k[0]) == 0x68;
    let b = lowercase_byte(k[1]) == 0x6f;
    let c = lowercase_byte(k[2]) == 0x73;
    let d = lowercase_byte(k[3]) == 0x74;
    proof {
        assert(host_name()[0] == 0x68);
        assert(host_name()[1] == 0x6f);
        assert(host_name()[2] == 0x73);
        assert(host_name()[3] == 0x74);
    }
    a && b && c && d
}

/// Once a prefix of the block fails, the whole block fails the same way.
proof fn lemma_fold_err_extends(pairs: Seq<(Seq<u8>, Seq<u8>)>, k: int, kind: HeadersOrTrailers)
    requires
        0 <= k <= pairs.len(),
        head_fold(pairs.subrange(0, k), kind) is Err,
    ensures
        head_fold(pairs, kind) == head_fold(pairs.subrange(0, k), kind),
    decreases pairs.len() - k,
{
    if k < pairs.len() {
        let p1 = pairs.subrange(0, k + 1);
        assert(p1.drop_last() =~= pairs.subrange(0, k));
        lemma_fold_err_extends(pairs, k + 1, kind);
    } else {
        assert(pairs.subrange(0, k) =~= pairs);
    }
}

/// Collects the pseudo-headers and headers of a decoded block.
fn fold_block(pairs: &Vec<(Vec<u8>, Vec<u8>)>, kind: HeadersOrTrailers) -> (r: Result<
    (Option<Vec<u8>>, Option<Vec<u8>>, Option<Vec<u8>>, Option<Vec<u8>>, Vec<(Vec<u8>, Vec<u8>)>),
    HeaderBlockError,
>)
    ensures
        match head_fold(pairs_view(pairs@), kind) {
            Err(e) => r == Err::<
                (
                    Option<Vec<u8>>,
                    Option<Vec<u8>>,
                    Option<Vec<u8>>,
                    Option<Vec<u8>>,
                    Vec<(Vec<u8>, Vec<u8>)>,
                ),
                HeaderBlockError,
            >(e),
            Ok(acc) => r is Ok && opt_view(r->Ok_0.0) == acc.method && opt_view(r->Ok_0.1)
                == acc.scheme && opt_view(r->Ok_0.2) == acc.path && opt_view(r->Ok_0.3)
                == acc.authority && pairs_view(r->Ok_0.4@) == acc.headers,
        },
{
    let mut method: Option<Vec<u8>> = None;
    let mut scheme: Option<Vec<u8>> = None;
    let mut path: Option<Vec<u8>> = None;
    let mut authority: Option<Vec<u8>> = None;
    let mut headers: Vec<(Vec<u8>, Vec<u8>)> = Vec::new();
    let mut k: usize = 0;
    proof {
        assert(pairs_view(pairs@).subrange(0, 0) =~= Seq::<(Seq<u8>, Seq<u8>)>::empty());
        assert(pairs_view(headers@) =~= Seq::<(Seq<u8>, Seq<u8>)>::empty());
    }
    while k < pairs.len()
        invariant
            k <= pairs@.len(),
            head_fold(pairs_view(pairs@).subrange(0, k as int), kind) == Ok::<
                HeadAcc,
                HeaderBlockError,
            >(
                HeadAcc {
                    method: opt_view(method),
                    scheme: opt_view(scheme),
                    path: opt_view(path),
                    authority: opt_view(authority),
                    headers: pairs_view(headers@),
                },
            ),
        decreases pairs@.len() - k,
    {
        let ghost pre = pairs_view(pairs@).subrange(0, k as int);
        let ghost pre1 = pairs_view(pairs@).subrange(0, k + 1);
        proof {
            assert(pre1.drop_last() =~= pre);
            assert(pre1.last() == (pairs@[k as int].0@, pairs@[k as int].1@));
        }
        let ghost acc = head_fold(pre, kind)->Ok_0;
        let key = &pairs[k].0;
        let value = &pairs[k].1;
        if key.len() == 0 {
            proof {
                lemma_fold_err_extends(pairs_view(pairs@), k + 1, kind);
            }
            return Err(HeaderBlockError::EmptyName);
        }
        if key[0] == 0x3a {
            if kind == HeadersOrTrailers::Trailers {
                proof {
                    lemma_fold_err_extends(pairs_view(pairs@), k + 1, kind);
                }
                return Err(HeaderBlockError::PseudoHeaderInTrailers);
            }
            match pseudo_kind(key.as_slice()) {
                Pseudo::Method => {
                    if method.is_some() {
                        proof {
                            lemma_fold_err_extends(pairs_view(pairs@), k + 1, kind);
                        }
                        return Err(HeaderBlockError::DuplicatePseudoHeader);
                    }
                    method = Some(copy_bytes(value));
                },
                Pseudo::Scheme => {
                    if scheme.is_some() {
                        proof {
                            lemma_fold_err_extends(pairs_view(pairs@), k + 1, kind);
                        }
                        return Err(HeaderBlockError::DuplicatePseudoHeader);
                    }
                    scheme = Some(copy_bytes(value));
                },
                Pseudo::Path => {
                    if value.len() == 0 {
                        proof {
                            lemma_fold_err_extends(pairs_view(pairs@), k + 1, kind);
                        }
                        return Err(HeaderBlockError::EmptyPath);
                    }
                    if path.is_some() {
                        proof {
                            lemma_fold_err_extends(pairs_view(pairs@), k + 1, kind);
                        }
                        return Err(HeaderBlockError::DuplicatePseudoHeader);
                    }
                    path = Some(copy_bytes(value));
                },
                Pseudo::Authority => {
                    if authority.is_some() {
                        proof {
                            lemma_fold_err_extends(pairs_view(pairs@), k + 1, kind);
                        }
                        return Err(HeaderBlockError::DuplicatePseudoHeader);
                    }
                    authority = Some(copy_bytes(value));
                },
                Pseudo::Other => {},
            }
        } else {
            let ghost before = headers@;
            headers.push((copy_bytes(key), copy_bytes(value)));
            proof {
                assert(pairs_view(headers@) =~= pairs_view(before).push((key@, value@)));
            }
        }
        k = k + 1;
    }
    proof {
        assert(pairs_view(pairs@).subrange(0, k as int) =~= pairs_view(pairs@));
    }
    Ok((method, scheme, path, authority, headers))
}

pub open spec fn opt_view(o: Option<Vec<u8>>) -> Option<Seq<u8>> {
    match o {
        Some(v) => Some(v@),
        None => None,
    }
}

/// The value of the first `host` header, if any.
fn find_host(hs: &Vec<(Vec<u8>, Vec<u8>)>) -> (r: Option<Vec<u8>>)
    ensures
        opt_view(r) == first_host(pairs_view(hs@)),
{
    let mut k: usize = 0;
    assert(pairs_view(hs@).subrange(0, hs@.len() as int) =~= pairs_view(hs@));
    while k < hs.len()
        invariant
            k <= hs@.len(),
            first_host(pairs_view(hs@)) == first_host(pairs_view(hs@).subrange(k as int, hs@.len() as int)),
        decreases hs@.len() - k,
    {
        let ghost rest = pairs_view(hs@).subrange(k as int, hs@.len() as int);
        proof {
            assert(rest.drop_first() =~= pairs_view(hs@).subrange(k + 1, hs@.len() as int));
            assert(rest[0] == (hs@[k as int].0@, hs@[k as int].1@));
        }
        if name_is_host(&hs[k].0) {
            return Some(copy_bytes(&hs[k].1));
        }
        k = k + 1;
    }
    None
}

/// The request head a decoded header block describes.
pub fn request_head(pairs: &Vec<(Vec<u8>, Vec<u8>)>) -> (r: Result<RequestHead, HeaderBlockError>)
    ensures
        match request_head_spec(pairs_view(pairs@)) {
            Ok(h) => r is Ok && r->Ok_0@ == h,
            Err(e) => r == Err::<RequestHead, HeaderBlockError>(e),
        },
{
    let (method, scheme, path, authority, headers) = fold_block(
        pairs,
        HeadersOrTrailers::Headers,
    )?;
    let method = match method {
        Some(m) => m,
        None => {
            return Err(HeaderBlockError::MissingMethod);
        },
    };
    let scheme = match scheme {
        Some(m) => m,
        None => {
            return Err(HeaderBlockError::MissingScheme);
        },
    };
    let path = match path {
        Some(m) => m,
        None => {
            return Err(HeaderBlockError::MissingPath);
        },
    };
    let authority = match authority {
        Some(a) => Some(a),
        None => find_host(&headers),
    };
    Ok(RequestHead { method, scheme, path, authority, headers })
}

/// The trailers a decoded header block carries.
pub fn trailers(pairs: &Vec<(Vec<u8>, Vec<u8>)>) -> (r: Result<
    Vec<(Vec<u8>, Vec<u8>)>,
    HeaderBlockError,
>)
    ensures
        match trailers_spec(pairs_view(pairs@)) {
            Ok(h) => r is Ok && pairs_view(r->Ok_0@) == h,
            Err(e) => r == Err::<Vec<(Vec<u8>, Vec<u8>)>, HeaderBlockError>(e),
        },
{
    let (_, _, _, _, headers) = fold_block(pairs, HeadersOrTrailers::Trailers)?;
    Ok(headers)
}

} // verus!
