//! Reading from the peer: when a parse of the buffered bytes is done, when
//! more bytes must be read and how many, and which frames are refused as
//! read (too large, or with bad padding).
use vstd::prelude::*;

use crate::frame::{has_flag, Frame, FrameType, IResult, ParseError};
use crate::h2::H2ConnectionError;

verus! {

/// Why reading a message failed.
#[derive(Debug, Clone, Copy, PartialEq, Eq, Structural)]
pub enum SemanticError {
    /// buffering limit reached while parsing
    BufferLimitReachedWhileParsing,
}

impl SemanticError {
    /// The response that tells the peer about the error.
    pub fn as_http_response(&self) -> (r: &'static str)
        ensures
            r@ == "HTTP/1.1 431 Request Header Fields Too Large\r\n\r\n"@,
    {
        match self {
            SemanticError::BufferLimitReachedWhileParsing => {
                "HTTP/1.1 431 Request Header Fields Too Large\r\n\r\n"
            },
        }
    }
}

/// What to do after parsing the buffered bytes.
#[derive(Debug, Clone, Copy, PartialEq, Eq, Structural)]
pub enum ReadDecision {
    /// the message is complete; this many bytes were used
    Done { consumed: usize },
    /// read more bytes, at most this many
    Read { limit: usize },
    /// the buffer holds `max_len` bytes and the message is still incomplete
    LimitReached,
    /// the bytes can never form a message
    Invalid,
}

/// What to do after parsing the buffered bytes, of which there are
/// `buf_len`, when a message may take at most `max_len` bytes.
pub open spec fn read_decision_spec<T>(parsed: IResult<T>, buf_len: usize, max_len: usize) -> ReadDecision {
    match parsed {
        Ok((n, _)) => ReadDecision::Done { consumed: n },
        Err(ParseError::Incomplete(_)) => if buf_len >= max_len {
            ReadDecision::LimitReached
        } else {
            ReadDecision::Read { limit: (max_len - buf_len) as usize }
        },
        Err(ParseError::Error) => ReadDecision::Invalid,
    }
}

/// Decides what to do after parsing the buffered bytes.
pub fn read_decision<T>(parsed: &IResult<T>, buf_len: usize, max_len: usize) -> (r: ReadDecision)
    ensures
        r == read_decision_spec(*parsed, buf_len, max_len),
{
    match parsed {
        Ok((n, _)) => ReadDecision::Done { consumed: *n },
        Err(ParseError::Incomplete(_)) => {
            if buf_len >= max_len {
                ReadDecision::LimitReached
            } else {
                ReadDecision::Read { limit: max_len - buf_len }
            }
        },
        Err(ParseError::Error) => ReadDecision::Invalid,
    }
}

/// What a read of `n` bytes means, when `buf_len` bytes were buffered.
#[derive(Debug, Clone, Copy, PartialEq, Eq, Structural)]
pub enum AfterRead {
    /// parse again
    Continue,
    /// the peer hung up between messages
    Eof,
    /// the peer hung up in the middle of a message
    UnexpectedEof,
}

/// What a read of `n` bytes means, when `buf_len` bytes were buffered.
pub fn after_read(n: usize, buf_len: usize) -> (r: AfterRead)
    ensures
        n > 0 ==> r == AfterRead::Continue,
        n == 0 && buf_len > 0 ==> r == AfterRead::UnexpectedEof,
        n == 0 && buf_len == 0 ==> r == AfterRead::Eof,
{
    if n == 0 {
        if buf_len > 0 {
            AfterRead::UnexpectedEof
        } else {
            AfterRead::Eof
        }
    } else {
        AfterRead::Continue
    }
}

/// A frame whose payload is larger than the maximum frame size we
/// announced is refused.
pub fn check_frame_size(frame: &Frame, max_frame_size: u32) -> (r: Result<(), H2ConnectionError>)
    ensures
        frame.len > max_frame_size ==> r == Err::<(), H2ConnectionError>(
            H2ConnectionError::FrameTooLarge {
                frame_type: frame.frame_type,
                frame_size: frame.len,
                max_frame_size,
            },
        ),
        frame.len <= max_frame_size ==> r == Ok::<(), H2ConnectionError>(()),
{
    if frame.len > max_frame_size {
        Err(
            H2ConnectionError::FrameTooLarge {
                frame_type: frame.frame_type,
                frame_size: frame.len,
                max_frame_size,
            },
        )
    } else {
        Ok(())
    }
}

/// DATA and HEADERS frames with the PADDED flag start with a padding length.
pub open spec fn is_padded(ft: FrameType) -> bool {
    match ft {
        FrameType::Data(f) => has_flag(f.bits, 0x08),
        FrameType::Headers(f) => has_flag(f.bits, 0x08),
        _ => false,
    }
}

/// The part of a frame's payload that is not padding, as a range
/// `(start, end)` of `payload`; a padded frame starts with the padding
/// length, and the padding ends the payload.
pub open spec fn unpadded_spec(frame: Frame, payload: Seq<u8>) -> Result<(usize, usize), H2ConnectionError> {
    if !is_padded(frame.frame_type) {
        Ok((0, payload.len() as usize))
    } else if payload.len() == 0 {
        Err(H2ConnectionError::PaddedFrameEmpty { frame_type: frame.frame_type })
    } else if payload.len() - 1 < payload[0] {
        Err(
            H2ConnectionError::PaddedFrameTooShort {
                frame_type: frame.frame_type,
                padding_length: payload[0] as usize,
                frame_size: frame.len,
            },
        )
    } else {
        Ok((1, (payload.len() - payload[0]) as usize))
    }
}

/// Where the payload of a frame is, once its padding is removed.
pub fn strip_padding(frame: &Frame, payload: &[u8]) -> (r: Result<(usize, usize), H2ConnectionError>)
    ensures
        r == unpadded_spec(*frame, payload@),
{
    let padded = match frame.frame_type {
        FrameType::Data(f) => f.contains(0x08),
        FrameType::Headers(f) => f.contains(0x08),
        _ => false,
    };
    if !padded {
        return Ok((0, payload.len()));
    }
    if payload.len() == 0 {
        return Err(H2ConnectionError::PaddedFrameEmpty { frame_type: frame.frame_type });
    }
    let pad = payload[0] as usize;
    if payload.len() - 1 < pad {
        return Err(
            H2ConnectionError::PaddedFrameTooShort {
                frame_type: frame.frame_type,
                padding_length: pad,
                frame_size: frame.len,
            },
        );
    }
    Ok((1, payload.len() - pad))
}

/// DATA and HEADERS frames carrying the PADDED flag (0x08) lose their first
/// byte, the pad length, and that many bytes at their end; they are refused
/// when empty or when the padding does not fit. Every other frame keeps its
/// whole payload.
pub proof fn law_padding_is_removed(f: Frame, p: Seq<u8>)
    requires
        p.len() <= usize::MAX,
    ensures
        (f.frame_type matches FrameType::Data(fl) && has_flag(fl.bits, 0x08)) ==> padded_result(
            f,
            p,
        ),
        (f.frame_type matches FrameType::Headers(fl) && has_flag(fl.bits, 0x08)) ==> padded_result(
            f,
            p,
        ),
        !(f.frame_type matches FrameType::Data(fl) && has_flag(fl.bits, 0x08)) && !(
        f.frame_type matches FrameType::Headers(fl) && has_flag(fl.bits, 0x08)) ==> unpadded_spec(
            f,
            p,
        ) == Ok::<(usize, usize), H2ConnectionError>((0, p.len() as usize)),
{
}

/// What becomes of the payload of a padded frame: the range after the pad
/// length and before the padding, or an error when there is no room for it.
pub open spec fn padded_result(f: Frame, p: Seq<u8>) -> bool {
    &&& p.len() == 0 ==> unpadded_spec(f, p) is Err
    &&& p.len() > 0 && p[0] > p.len() - 1 ==> unpadded_spec(f, p) is Err
    &&& p.len() > 0 && p[0] <= p.len() - 1 ==> unpadded_spec(f, p) == Ok::<
        (usize, usize),
        H2ConnectionError,
    >((1, (p.len() - p[0]) as usize))
}

} // verus!
