//! HTTP/1.1 parser implementation.

use vstd::prelude::*;
use vstd::slice::slice_index_get;

pub mod grammar;
pub mod request;
pub mod response;
pub mod tokens;

use crate::parser::ParseError;
use crate::parser::ParseResult;
use crate::parser::Status;
use crate::parser::h1::grammar::CR;
use crate::parser::h1::grammar::HTAB;
use crate::parser::h1::grammar::LF;
use crate::parser::h1::grammar::SP;
use crate::parser::h1::grammar::ows_end;
use crate::parser::raw_request::RawRequest;

verus! {

/// Consumes whitespace characters from `buf`, starting at `pos`.
/// Whitespace is defined by RFC 9110 Section 5.6.3 by ABNF
/// `OWS = *( SP / HTAB )`.
///
/// Returns the position of the first non-whitespace byte, or `None` if the
/// input ends before one is found.
pub fn discard_whitespace(buf: &[u8], pos: usize) -> (r: Option<usize>)
    requires
        pos <= buf@.len(),
    ensures
        (match r {
            Some(p) => p == ows_end(buf@, pos as int) && p < buf@.len(),
            None => ows_end(buf@, pos as int) == buf@.len(),
        }),
{
    let len: usize = buf.len();
    let mut p: usize = pos;
    while p < len
        invariant
            pos <= p <= len,
            len == buf@.len(),
            ows_end(buf@, pos as int) == ows_end(buf@, p as int),
        decreases len - p,
    {
        let b: u8 = *slice_index_get(buf, p);
        if b != SP && b != HTAB {
            return Some(p);
        }
        p += 1;
    }
    None
}

/// Consumes whitespace characters from `buf`, requiring at least one.
/// Whitespace is defined by RFC 9110 Section 5.6.3 by ABNF
/// `RWS = 1*( SP / HTAB )`.
///
/// Fails with `err_type` if the byte at `pos` is not whitespace; reports
/// `Partial` if the input ends at `pos`, or while whitespace is still
/// being consumed (more whitespace might follow).
pub fn discard_required_whitespace(buf: &[u8], pos: usize, err_type: ParseError) -> (r:
    ParseResult<usize>)
    requires
        pos <= buf@.len(),
    ensures
        (if pos == buf@.len() {
            r == Ok::<Status<usize>, ParseError>(Status::Partial)
        } else if buf@[pos as int] != SP && buf@[pos as int] != HTAB {
            r == Err::<Status<usize>, ParseError>(err_type)
        } else if ows_end(buf@, pos as int) == buf@.len() {
            r == Ok::<Status<usize>, ParseError>(Status::Partial)
        } else {
            r == Ok::<Status<usize>, ParseError>(Status::Complete(
                ows_end(buf@, pos as int) as usize,
            ))
        }),
{
    if pos == buf.len() {
        return Ok(Status::Partial);
    }
    let b: u8 = *slice_index_get(buf, pos);
    if b != SP && b != HTAB {
        return Err(err_type);
    }
    match discard_whitespace(buf, pos) {
        Some(p) => Ok(Status::Complete(p)),
        None => Ok(Status::Partial),
    }
}

/// Verifies the placement of a required newline sequence of bytes.
/// Returns the position after the newline sequence; takes the `ParseError`
/// to be returned should another byte stand where the newline belongs.
/// Reports `Partial` if fewer than two bytes remain.
pub fn discard_required_newline(buf: &[u8], pos: usize, err_type: ParseError) -> (r: ParseResult<
    usize>)
    requires
        pos <= buf@.len(),
    ensures
        (if buf@.len() - pos < 2 {
            r == Ok::<Status<usize>, ParseError>(Status::Partial)
        } else if buf@[pos as int] == CR && buf@[pos + 1] == LF {
            r == Ok::<Status<usize>, ParseError>(Status::Complete((pos + 2) as usize))
        } else {
            r == Err::<Status<usize>, ParseError>(err_type)
        }),
{
    if buf.len() - pos < 2 {
        return Ok(Status::Partial);
    }
    let b0: u8 = *slice_index_get(buf, pos);
    let b1: u8 = *slice_index_get(buf, pos + 1);
    if b0 != CR || b1 != LF {
        return Err(err_type);
    }
    Ok(Status::Complete(pos + 2))
}

/// Where a scan for the next non-whitespace byte, started at `pos`, comes
/// to rest: at the position of a `CR` that begins a `CRLF`, one past any
/// other non-whitespace byte, or at the length of `s` if only whitespace
/// remains.
pub open spec fn non_whitespace_pos(s: Seq<u8>, pos: int) -> int
    decreases s.len() - pos,
{
    if pos >= s.len() {
        s.len() as int
    } else if s[pos] == CR && pos + 1 < s.len() && s[pos + 1] == LF {
        pos
    } else if s[pos] != SP && s[pos] != HTAB {
        pos + 1
    } else {
        non_whitespace_pos(s, pos + 1)
    }
}

/// Finds the offset of the next non-whitespace character, starting at
/// `start`.
///
/// A `CRLF` counts as a newline, not as whitespace: the scan stops at its
/// `CR` and returns that position.  Any other non-whitespace byte stops
/// the scan, which then returns the position one past it.  Returns `None`
/// if the input ends before either is found.
pub fn get_non_whitespace_pos(buf: &[u8], start: usize) -> (r: Option<usize>)
    requires
        start <= buf@.len(),
    ensures
        (match r {
            Some(p) => p == non_whitespace_pos(buf@, start as int),
            None => non_whitespace_pos(buf@, start as int) == buf@.len(),
        }),
{
    let len: usize = buf.len();
    let mut p: usize = start;
    while p < len
        invariant
            start <= p <= len,
            len == buf@.len(),
            non_whitespace_pos(buf@, start as int) == non_whitespace_pos(buf@, p as int),
        decreases len - p,
    {
        let b: u8 = *slice_index_get(buf, p);
        if b == CR && p + 1 < len {
            let nx: u8 = *slice_index_get(buf, p + 1);
            if nx == LF {
                return Some(p);
            }
        }
        if b != SP && b != HTAB {
            return Some(p + 1);
        }
        p += 1;
    }
    None
}

/// First position at or after `pos` where a `CR` immediately followed by a
/// `LF` stands, or the length of `s` if there is none.
pub open spec fn crlf_pos(s: Seq<u8>, pos: int) -> int
    decreases s.len() - pos,
{
    if pos + 1 >= s.len() {
        s.len() as int
    } else if s[pos] == CR && s[pos + 1] == LF {
        pos
    } else {
        crlf_pos(s, pos + 1)
    }
}

/// Consumes `buf` through the `CR` of the next `CRLF` and discards
/// everything before it: afterwards the buffer starts at the `LF`.  Fails
/// with `ParseError::NewLine`, with the buffer fully consumed, if no
/// `CRLF` remains.
pub fn take_after_newline(buf: &mut RawRequest<'_>) -> (r: Result<(), ParseError>)
    requires
        old(buf).wf(),
    ensures
        final(buf).wf(),
        ({
            let c = crlf_pos(old(buf).bytes(), old(buf).position());
            if c < old(buf).bytes().len() {
                r == Ok::<(), ParseError>(())
                    && final(buf).bytes() == old(buf).bytes().skip(c + 1)
                    && final(buf).position() == 0
            } else {
                r == Err::<(), ParseError>(ParseError::NewLine)
                    && final(buf).bytes() == old(buf).bytes()
                    && final(buf).position() == old(buf).bytes().len()
            }
        }),
{
    loop
        invariant
            buf.wf(),
            buf.bytes() == old(buf).bytes(),
            old(buf).position() <= buf.position() <= buf.bytes().len(),
            crlf_pos(buf.bytes(), old(buf).position()) == crlf_pos(buf.bytes(), buf.position()),
        decreases buf.bytes().len() - buf.position(),
    {
        match buf.next() {
            Some(b) => {
                let ghost q = buf.position() - 1;
                if b == CR {
                    let after = buf.peek();
                    match after {
                        Some(nx) => {
                            if nx == LF {
                                proof {
                                    assert(crlf_pos(buf.bytes(), q) == q);
                                }
                                let _ = buf.slice();
                                return Ok(());
                            }
                        }
                        None => {
                        }
                    }
                }
                proof {
                    assert(crlf_pos(buf.bytes(), q) == crlf_pos(buf.bytes(), q + 1));
                }
            }
            None => {
                return Err(ParseError::NewLine);
            }
        }
    }
}

} // verus!
