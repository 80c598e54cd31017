//! Request and response bodies and the states of a response, as the
//! server's users see them.
use vstd::prelude::*;

use crate::headers::pairs_view;
use crate::http1::is_informational;
use vstd::string::StringExecFns;

verus! {

/// Why reading or writing a body failed.
#[derive(Debug, Clone, Copy, PartialEq, Eq, Structural)]
pub enum BodyErrorReason {
    /// next_chunk() was called after an error was returned
    CalledNextChunkAfterError,
    /// while doing chunked transfer-encoding, we expected a chunk size
    /// but the connection closed/errored in some way
    ClosedWhileReadingChunkSize,
    /// while doing chunked transfer-encoding, we expected a chunk size,
    /// but what we read wasn't a hex number followed by CRLF
    InvalidChunkSize,
    /// while doing chunked transfer-encoding, the connection was closed
    /// in the middle of reading a chunk's data
    ClosedWhileReadingChunkData,
    /// while reading a content-length body, the connection was closed
    ClosedWhileReadingContentLength,
    /// while doing chunked transfer-encoding, there was a read error
    /// in the middle of reading a chunk's data
    ErrorWhileReadingChunkData,
    /// while doing chunked transfer-encoding, the connection was closed
    /// in the middle of reading the chunk terminator
    ClosedWhileReadingChunkTerminator,
    /// while doing chunked transfer-encoding, we read the chunk size,
    /// then that much data, but then encountered something other than
    /// a CRLF
    InvalidChunkTerminator,
    /// `write_chunk` was called but no content-length was announced, and
    /// no chunked transfer-encoding was announced
    CalledWriteBodyChunkWhenNoBodyWasExpected,
}

/// A body error: why, and what was going on (as text).
#[derive(Debug, Clone, PartialEq, Eq)]
pub struct BodyError {
    pub reason: BodyErrorReason,
    pub context: Option<String>,
}

impl BodyErrorReason {
    /// The error, without context.
    pub fn as_err(self) -> (r: BodyError)
        ensures
            r.reason == self,
            r.context is None,
    {
        BodyError { reason: self, context: None }
    }

    /// The error, with what was going on.
    pub fn with_cx(self, context: String) -> (r: BodyError)
        ensures
            r.reason == self,
            r.context == Some(context),
    {
        BodyError { reason: self, context: Some(context) }
    }
}

/// How a body error reason prints (its variant's name).
pub open spec fn reason_name(r: BodyErrorReason) -> Seq<char> {
    match r {
        BodyErrorReason::CalledNextChunkAfterError => "CalledNextChunkAfterError"@,
        BodyErrorReason::ClosedWhileReadingChunkSize => "ClosedWhileReadingChunkSize"@,
        BodyErrorReason::InvalidChunkSize => "InvalidChunkSize"@,
        BodyErrorReason::ClosedWhileReadingChunkData => "ClosedWhileReadingChunkData"@,
        BodyErrorReason::ClosedWhileReadingContentLength => "ClosedWhileReadingContentLength"@,
        BodyErrorReason::ErrorWhileReadingChunkData => "ErrorWhileReadingChunkData"@,
        BodyErrorReason::ClosedWhileReadingChunkTerminator => "ClosedWhileReadingChunkTerminator"@,
        BodyErrorReason::InvalidChunkTerminator => "InvalidChunkTerminator"@,
        BodyErrorReason::CalledWriteBodyChunkWhenNoBodyWasExpected => "CalledWriteBodyChunkWhenNoBodyWasExpected"@,
    }
}

/// What `{:?}` makes of a string: quoted, with its special characters
/// escaped.
pub uninterp spec fn debug_text(s: Seq<char>) -> Seq<char>;

/// `<str as Debug>::fmt`, through `format!("{:?}")`: the result is named
/// by `debug_text`.
#[verifier::external_body]
fn str_debug(s: &str) -> (r: String)
    ensures
        r@ == debug_text(s@),
{
    format!("{:?}", s)
}

/// The message of a body error: `body error: ` and the reason, then the
/// context (as `{:?}` prints it) in parentheses, if there is one.
pub open spec fn body_error_message(reason: BodyErrorReason, context: Option<Seq<char>>) -> Seq<
    char,
> {
    let head = "body error: "@ + reason_name(reason);
    match context {
        Some(c) => head + " ("@ + debug_text(c) + ")"@,
        None => head,
    }
}

impl BodyError {
    /// The message this error prints.
    pub fn message(&self) -> (r: String)
        ensures
            r@ == body_error_message(
                self.reason,
                match self.context {
                    Some(c) => Some(c@),
                    None => None,
                },
            ),
    {
        let mut m = "body error: ".to_string();
        let name = match self.reason {
            BodyErrorReason::CalledNextChunkAfterError => "CalledNextChunkAfterError",
            BodyErrorReason::ClosedWhileReadingChunkSize => "ClosedWhileReadingChunkSize",
            BodyErrorReason::InvalidChunkSize => "InvalidChunkSize",
            BodyErrorReason::ClosedWhileReadingChunkData => "ClosedWhileReadingChunkData",
            BodyErrorReason::ClosedWhileReadingContentLength => "ClosedWhileReadingContentLength",
            BodyErrorReason::ErrorWhileReadingChunkData => "ErrorWhileReadingChunkData",
            BodyErrorReason::ClosedWhileReadingChunkTerminator => "ClosedWhileReadingChunkTerminator",
            BodyErrorReason::InvalidChunkTerminator => "InvalidChunkTerminator",
            BodyErrorReason::CalledWriteBodyChunkWhenNoBodyWasExpected => "CalledWriteBodyChunkWhenNoBodyWasExpected",
        };
        m.append(name);
        match &self.context {
            Some(c) => {
                m.append(" (");
                let d = str_debug(c.as_str());
                m.append(d.as_str());
                m.append(")");
            },
            None => {},
        }
        m
    }
}

/// The states a response goes through.
pub trait ResponseState {

}

/// The response head is still to be written.
pub struct ExpectResponseHeaders;

impl ResponseState for ExpectResponseHeaders {

}

/// The response head was written; the body follows.
pub struct ExpectResponseBody;

impl ResponseState for ExpectResponseBody {

}

/// The response was written whole.
pub struct ResponseDone;

impl ResponseState for ResponseDone {

}

/// Why a step of a response is refused.
#[derive(Debug, Clone, Copy, PartialEq, Eq, Structural)]
pub enum ResponseStatusError {
    /// interim response must have status code 1xx
    InterimNotInformational,
    /// final response must have status code >= 200
    FinalIsInformational,
    /// the client's `expect: 100-continue` was not answered
    ContinuePending,
    /// the body would exceed the announced content-length
    BeyondContentLength,
    /// the body does not match the announced content-length
    LengthMismatch,
    /// trailers are not allowed for this response
    TrailersNotAllowed,
}

/// An interim response must be informational (1xx).
pub fn check_interim_status(code: u16) -> (r: Result<(), ResponseStatusError>)
    ensures
        is_informational(code) ==> r is Ok,
        !is_informational(code) ==> r == Err::<(), ResponseStatusError>(
            ResponseStatusError::InterimNotInformational,
        ),
{
    if 100 <= code && code <= 199 {
        Ok(())
    } else {
        Err(ResponseStatusError::InterimNotInformational)
    }
}

/// A final response must not be informational (1xx).
pub fn check_final_status(code: u16) -> (r: Result<(), ResponseStatusError>)
    ensures
        !is_informational(code) ==> r is Ok,
        is_informational(code) ==> r == Err::<(), ResponseStatusError>(
            ResponseStatusError::FinalIsInformational,
        ),
{
    if 100 <= code && code <= 199 {
        Err(ResponseStatusError::FinalIsInformational)
    } else {
        Ok(())
    }
}

/// The decimal digits of `n`, most significant first, in ASCII.
pub open spec fn decimal(n: nat) -> Seq<u8>
    decreases n,
{
    if n < 10 {
        seq![(0x30 + n) as u8]
    } else {
        decimal(n / 10).push((0x30 + n % 10) as u8)
    }
}

/// The decimal digits of `n`, in ASCII.
pub fn format_decimal(n: u64) -> (r: Vec<u8>)
    ensures
        r@ == decimal(n as nat),
{
    let mut out: Vec<u8> = Vec::new();
    let mut x = n;
    loop
        invariant
            x <= n,
            decimal(n as nat) == decimal(x as nat) + out@,
        decreases x,
    {
        let d = (0x30 + x % 10) as u8;
        let ghost out0 = out@;
        out.insert(0, d);
        proof {
            assert(out@ =~= seq![d] + out0);
            if x >= 10 {
                assert(decimal(x as nat) == decimal((x / 10) as nat).push(d));
                assert(decimal((x / 10) as nat).push(d) + out0 =~= decimal((x / 10) as nat)
                    + out@);
            } else {
                assert(decimal(x as nat) == seq![d]);
            }
        }
        if x < 10 {
            assert(out@ =~= decimal(x as nat) + out0);
            return out;
        }
        x = x / 10;
    }
}

/// The bytes `content-length`.
pub open spec fn content_length_name() -> Seq<u8> {
    seq![0x63u8, 0x6f, 0x6e, 0x74, 0x65, 0x6e, 0x74, 0x2d, 0x6c, 0x65, 0x6e, 0x67, 0x74, 0x68]
}

/// Whether some header is named `n`.
pub open spec fn has_header(hs: Seq<(Seq<u8>, Seq<u8>)>, n: Seq<u8>) -> bool {
    exists|i: int| 0 <= i < hs.len() && #[trigger] hs[i].0 == n
}

/// The headers of a response written with a body whose length is known:
/// a `content-length` header is added unless one is there.
pub open spec fn with_content_length_spec(hs: Seq<(Seq<u8>, Seq<u8>)>, clen: Option<u64>) -> Seq<
    (Seq<u8>, Seq<u8>),
> {
    match clen {
        Some(n) => if has_header(hs, content_length_name()) {
            hs
        } else {
            hs.push((content_length_name(), decimal(n as nat)))
        },
        None => hs,
    }
}

fn name_is(a: &Vec<u8>, b: &[u8]) -> (r: bool)
    ensures
        r == (a@ == b@),
{
    if a.len() != b.len() {
        return false;
    }
    let mut k: usize = 0;
    while k < a.len()
        invariant
            a@.len() == b@.len(),
            k <= a@.len(),
            forall|j: int| 0 <= j < k ==> a@[j] == b@[j],
        decreases a@.len() - k,
    {
        if a[k] != b[k] {
            return false;
        }
        k = k + 1;
    }
    assert(a@ =~= b@);
    true
}

/// Adds a `content-length` header for a body of known length, unless one is
/// there already.
pub fn with_content_length(headers: &mut Vec<(Vec<u8>, Vec<u8>)>, clen: Option<u64>)
    ensures
        pairs_view(final(headers)@) == with_content_length_spec(pairs_view(old(headers)@), clen),
{
    let n = match clen {
        None => {
            return;
        },
        Some(n) => n,
    };
    let name: [u8; 14] = [
        0x63, 0x6f, 0x6e, 0x74, 0x65, 0x6e, 0x74, 0x2d, 0x6c, 0x65, 0x6e, 0x67, 0x74, 0x68,
    ];
    assert(name@ =~= content_length_name());
    let mut k: usize = 0;
    while k < headers.len()
        invariant
            k <= headers@.len(),
            name@ == content_length_name(),
            forall|j: int| 0 <= j < k ==> headers@[j].0@ != content_length_name(),
        decreases headers@.len() - k,
    {
        if name_is(&headers[k].0, name.as_slice()) {
            proof {
                assert(pairs_view(headers@)[k as int].0 == content_length_name());
            }
            return;
        }
        k = k + 1;
    }
    proof {
        assert forall|i: int| 0 <= i < pairs_view(headers@).len() implies #[trigger] pairs_view(
            headers@,
        )[i].0 != content_length_name() by {
            assert(pairs_view(headers@)[i].0 == headers@[i].0@);
        }
    }
    let ghost before = headers@;
    let mut nv: Vec<u8> = Vec::new();
    let mut j: usize = 0;
    while j < 14
        invariant
            j <= 14,
            nv@ == name@.subrange(0, j as int),
        decreases 14 - j,
    {
        nv.push(name[j]);
        j = j + 1;
        assert(nv@ =~= name@.subrange(0, j as int));
    }
    assert(nv@ =~= name@);
    headers.push((nv, format_decimal(n)));
    proof {
        assert(pairs_view(headers@) =~= pairs_view(before).push(
            (content_length_name(), decimal(n as nat)),
        ));
    }
}

/// Protocols the test server can speak.
#[derive(Debug, Clone, Copy, PartialEq, Eq, Structural)]
pub enum Proto {
    H1,
    H2,
}

/// Message sent when the server is ready to accept connections.
#[derive(Debug, Clone, Copy, PartialEq, Eq, Structural)]
pub struct Ready {
    pub port: u16,
}

/// `s`, `n` times over.
pub open spec fn repeated(s: Seq<char>, n: nat) -> Seq<char>
    decreases n,
{
    if n == 0 {
        Seq::empty()
    } else {
        repeated(s, (n - 1) as nat) + s
    }
}

/// The string `s`, `n` times over (what `str::repeat` gives).
pub(crate) fn str_repeat(s: &str, n: usize) -> (r: String)
    ensures
        r@ == repeated(s@, n as nat),
{
    let mut out = String::new();
    let mut k: usize = 0;
    while k < n
        invariant
            k <= n,
            out@ == repeated(s@, k as nat),
        decreases n - k,
    {
        out.append(s);
        k = k + 1;
    }
    out
}

/// A large response body for tests: a short sentence, 256 times over, and
/// that 128 times over.
pub fn big_body() -> (r: String)
    ensures
        r@ == repeated(repeated("this is a big chunk"@, 256), 128),
{
    let chunk = str_repeat("this is a big chunk", 256);
    str_repeat(chunk.as_str(), 128)
}

/// HTTP/1 client configuration.
#[derive(Debug, Clone, Copy, PartialEq, Eq, Structural)]
pub struct ClientConf {}

} // verus!
