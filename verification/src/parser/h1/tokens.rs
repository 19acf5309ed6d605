//! Token classes of RFC 9110 and their validators.
//!
//! Three byte classes drive the parser: header-name bytes (`tchar`),
//! header-value bytes (`VCHAR`, `HTAB` and `obs-text`), and request-target
//! bytes (`VCHAR`).  Each class has a scalar classifier, and a batched
//! validator that scans fixed-width windows of input through a
//! nibble-indexed bitmap (the table form of the classifier) and is proved to
//! consume exactly as many bytes as the scalar classifier would.

use vstd::prelude::*;
use vstd::slice::slice_index_get;

verus! {

/// Width of the window the batched validators scan at a time.
pub const BATCH_WIDTH: usize = 16;

/// The three token classes of the request grammar.
#[derive(Debug, PartialEq, Eq, Structural, Clone, Copy)]
pub enum TokenClass {
    /// Bytes allowed in a header name (`tchar`).
    HeaderName,
    /// Bytes allowed in a header value (`VCHAR` / `HTAB` / `obs-text`).
    HeaderValue,
    /// Bytes allowed in a request-target (`VCHAR`).
    Target,
}

/// `tchar`, the token character class of header names:
/// `! # $ % & ' * + - . ^ _ ` | ~`, digits and letters.
pub open spec fn is_tchar(b: u8) -> bool {
    b == 0x21 || b == 0x23 || b == 0x24 || b == 0x25 || b == 0x26 || b == 0x27
        || b == 0x2a || b == 0x2b || b == 0x2d || b == 0x2e
        || b == 0x5e || b == 0x5f || b == 0x60 || b == 0x7c || b == 0x7e
        || (0x30 <= b && b <= 0x39)
        || (0x41 <= b && b <= 0x5a)
        || (0x61 <= b && b <= 0x7a)
}

/// Bytes allowed in a header value: everything above `0x1f` together with
/// `HTAB` (`0x09`), except `DEL` (`0x7f`).  This accepts `obs-text`
/// (`0x80..=0xff`).
pub open spec fn is_field_vchar(b: u8) -> bool {
    (b > 0x1f || b == 0x09) && b != 0x7f
}

/// Bytes allowed in a request-target: printable ASCII (`0x21..=0x7e`).
pub open spec fn is_target_char(b: u8) -> bool {
    0x21 <= b && b <= 0x7e
}

/// Membership of a byte in a token class.
pub open spec fn is_token_byte(c: TokenClass, b: u8) -> bool {
    match c {
        TokenClass::HeaderName => is_tchar(b),
        TokenClass::HeaderValue => is_field_vchar(b),
        TokenClass::Target => is_target_char(b),
    }
}

/// Decides whether `b` may appear in a header name.
pub fn is_header_name_token(b: u8) -> (r: bool)
    ensures
        r == is_tchar(b),
{
    b == 0x21 || b == 0x23 || b == 0x24 || b == 0x25 || b == 0x26 || b == 0x27
        || b == 0x2a || b == 0x2b || b == 0x2d || b == 0x2e
        || b == 0x5e || b == 0x5f || b == 0x60 || b == 0x7c || b == 0x7e
        || (0x30 <= b && b <= 0x39)
        || (0x41 <= b && b <= 0x5a)
        || (0x61 <= b && b <= 0x7a)
}

/// Decides whether `b` may appear in a header value.
pub fn is_header_value_token(b: u8) -> (r: bool)
    ensures
        r == is_field_vchar(b),
{
    (b > 0x1f || b == 0x09) && b != 0x7f
}

/// Decides whether `b` may appear in a request-target.
pub fn is_request_target_token(b: u8) -> (r: bool)
    ensures
        r == is_target_char(b),
{
    0x21 <= b && b <= 0x7e
}

/// Decides membership of `b` in class `c`.
pub fn is_class_token(c: TokenClass, b: u8) -> (r: bool)
    ensures
        r == is_token_byte(c, b),
{
    match c {
        TokenClass::HeaderName => is_header_name_token(b),
        TokenClass::HeaderValue => is_header_value_token(b),
        TokenClass::Target => is_request_target_token(b),
    }
}

/// First index at or after `pos` whose byte is outside class `c`, or the
/// length of `s` if every byte from `pos` on belongs to the class.  This is
/// the mathematical meaning every validator is held to: the consumption of
/// a scan started at `pos`.
pub open spec fn token_run_end(c: TokenClass, s: Seq<u8>, pos: int) -> int
    decreases s.len() - pos,
{
    if pos >= s.len() {
        s.len() as int
    } else if !is_token_byte(c, s[pos]) {
        pos
    } else {
        token_run_end(c, s, pos + 1)
    }
}

/// The run end lies between `pos` and the end of `s`; every byte before it
/// (from `pos` on) is in the class; the byte at it, if any, is not.
pub proof fn lemma_token_run_end_props(c: TokenClass, s: Seq<u8>, pos: int)
    requires
        0 <= pos <= s.len(),
    ensures
        pos <= token_run_end(c, s, pos) <= s.len(),
        forall|i: int| pos <= i < token_run_end(c, s, pos) ==> is_token_byte(c, #[trigger] s[i]),
        token_run_end(c, s, pos) < s.len() ==> !is_token_byte(c, s[token_run_end(c, s, pos)]),
    decreases s.len() - pos,
{
    if pos >= s.len() {
    } else if !is_token_byte(c, s[pos]) {
    } else {
        lemma_token_run_end_props(c, s, pos + 1);
    }
}

/// The run end is the unique cut `k` with only class bytes before it and a
/// byte outside the class (or the end of input) at it.  In particular the
/// batched validators, whose consumption is specified through
/// `token_run_end`, consume exactly the longest prefix the scalar
/// classifier accepts.
pub proof fn lemma_token_run_end_characterization(c: TokenClass, s: Seq<u8>, pos: int, k: int)
    requires
        0 <= pos <= k <= s.len(),
        forall|i: int| pos <= i < k ==> is_token_byte(c, #[trigger] s[i]),
        k < s.len() ==> !is_token_byte(c, s[k]),
    ensures
        token_run_end(c, s, pos) == k,
    decreases s.len() - pos,
{
    if pos == k {
    } else {
        assert(is_token_byte(c, s[pos]));
        lemma_token_run_end_characterization(c, s, pos + 1, k);
    }
}

/// A single byte is consumed exactly when the scalar classifier accepts it:
/// on the one-byte input `[b]` the run end is 1 if `b` is in the class and
/// 0 otherwise.
pub proof fn lemma_single_byte_agreement(c: TokenClass, b: u8)
    ensures
        (token_run_end(c, seq![b], 0) == 1) <==> is_token_byte(c, b),
        (token_run_end(c, seq![b], 0) == 0) <==> !is_token_byte(c, b),
{
    let s = seq![b];
    assert(s[0] == b);
    if is_token_byte(c, b) {
        assert(token_run_end(c, s, 1) == 1);
    }
}

/// Row of the header-name bitmap: one bit per high nibble.
pub open spec fn name_row_spec(hi: u8) -> u8 {
    if hi == 0 { 0x01 } else if hi == 1 { 0x02 } else if hi == 2 { 0x04 }
    else if hi == 3 { 0x08 } else if hi == 4 { 0x10 } else if hi == 5 { 0x20 }
    else if hi == 6 { 0x40 } else if hi == 7 { 0x80 } else { 0x00 }
}

/// Column of the header-name bitmap: for a low nibble, the set of high
/// nibbles that make a `tchar`.
pub open spec fn name_col_spec(lo: u8) -> u8 {
    if lo == 0 { 0xe8 } else if lo == 1 { 0xfc } else if lo == 2 { 0xf8 }
    else if lo == 3 { 0xfc } else if lo == 4 { 0xfc } else if lo == 5 { 0xfc }
    else if lo == 6 { 0xfc } else if lo == 7 { 0xfc } else if lo == 8 { 0xf8 }
    else if lo == 9 { 0xf8 } else if lo == 10 { 0xf4 } else if lo == 11 { 0x54 }
    else if lo == 12 { 0xd0 } else if lo == 13 { 0x54 } else if lo == 14 { 0xf4 }
    else { 0x70 }
}

/// Row of the request-target bitmap.
pub open spec fn target_row_spec(hi: u8) -> u8 {
    if hi == 0 { 0x01 } else if hi == 1 { 0x02 } else if hi == 2 { 0x04 }
    else if hi == 3 { 0x08 } else if hi == 4 { 0x10 } else if hi == 5 { 0x20 }
    else if hi == 6 { 0x40 } else if hi == 7 { 0x80 } else { 0x00 }
}

/// Column of the request-target bitmap: printable ASCII.
pub open spec fn target_col_spec(lo: u8) -> u8 {
    if lo == 0 { 0xf8 } else if lo == 15 { 0x7c } else { 0xfc }
}

/// The header-name bitmap lookup agrees with `tchar` on every byte.
pub proof fn lemma_name_bitmap_agrees(b: u8)
    ensures
        ((name_row_spec(b >> 4) & name_col_spec(b & 0x0f)) != 0) == is_tchar(b),
{
    assert((((if b >> 4 == 0 { 0x01u8 } else if b >> 4 == 1 { 0x02u8 }
            else if b >> 4 == 2 { 0x04u8 } else if b >> 4 == 3 { 0x08u8 }
            else if b >> 4 == 4 { 0x10u8 } else if b >> 4 == 5 { 0x20u8 }
            else if b >> 4 == 6 { 0x40u8 } else if b >> 4 == 7 { 0x80u8 }
            else { 0x00u8 })
        & (if b & 0x0f == 0 { 0xe8u8 } else if b & 0x0f == 1 { 0xfcu8 }
            else if b & 0x0f == 2 { 0xf8u8 } else if b & 0x0f == 3 { 0xfcu8 }
            else if b & 0x0f == 4 { 0xfcu8 } else if b & 0x0f == 5 { 0xfcu8 }
            else if b & 0x0f == 6 { 0xfcu8 } else if b & 0x0f == 7 { 0xfcu8 }
            else if b & 0x0f == 8 { 0xf8u8 } else if b & 0x0f == 9 { 0xf8u8 }
            else if b & 0x0f == 10 { 0xf4u8 } else if b & 0x0f == 11 { 0x54u8 }
            else if b & 0x0f == 12 { 0xd0u8 } else if b & 0x0f == 13 { 0x54u8 }
            else if b & 0x0f == 14 { 0xf4u8 } else { 0x70u8 })) != 0)
        == (b == 0x21 || b == 0x23 || b == 0x24 || b == 0x25 || b == 0x26 || b == 0x27
            || b == 0x2a || b == 0x2b || b == 0x2d || b == 0x2e
            || b == 0x5e || b == 0x5f || b == 0x60 || b == 0x7c || b == 0x7e
            || (0x30 <= b && b <= 0x39)
            || (0x41 <= b && b <= 0x5a)
            || (0x61 <= b && b <= 0x7a))) by (bit_vector);
}

/// The request-target bitmap lookup agrees with the printable-ASCII class
/// on every byte.
pub proof fn lemma_target_bitmap_agrees(b: u8)
    ensures
        ((target_row_spec(b >> 4) & target_col_spec(b & 0x0f)) != 0) == is_target_char(b),
{
    assert((((if b >> 4 == 0 { 0x01u8 } else if b >> 4 == 1 { 0x02u8 }
            else if b >> 4 == 2 { 0x04u8 } else if b >> 4 == 3 { 0x08u8 }
            else if b >> 4 == 4 { 0x10u8 } else if b >> 4 == 5 { 0x20u8 }
            else if b >> 4 == 6 { 0x40u8 } else if b >> 4 == 7 { 0x80u8 }
            else { 0x00u8 })
        & (if b & 0x0f == 0 { 0xf8u8 } else if b & 0x0f == 15 { 0x7cu8 }
            else { 0xfcu8 })) != 0)
        == (0x21u8 <= b && b <= 0x7eu8)) by (bit_vector);
}

/// Bitmap row for the header-name class.
pub fn name_row_mask(hi: u8) -> (r: u8)
    ensures
        r == name_row_spec(hi),
{
    if hi == 0 { 0x01 } else if hi == 1 { 0x02 } else if hi == 2 { 0x04 }
    else if hi == 3 { 0x08 } else if hi == 4 { 0x10 } else if hi == 5 { 0x20 }
    else if hi == 6 { 0x40 } else if hi == 7 { 0x80 } else { 0x00 }
}

/// Bitmap column for the header-name class.
pub fn name_col_mask(lo: u8) -> (r: u8)
    ensures
        r == name_col_spec(lo),
{
    if lo == 0 { 0xe8 } else if lo == 1 { 0xfc } else if lo == 2 { 0xf8 }
    else if lo == 3 { 0xfc } else if lo == 4 { 0xfc } else if lo == 5 { 0xfc }
    else if lo == 6 { 0xfc } else if lo == 7 { 0xfc } else if lo == 8 { 0xf8 }
    else if lo == 9 { 0xf8 } else if lo == 10 { 0xf4 } else if lo == 11 { 0x54 }
    else if lo == 12 { 0xd0 } else if lo == 13 { 0x54 } else if lo == 14 { 0xf4 }
    else { 0x70 }
}

/// Bitmap row for the request-target class.
pub fn target_row_mask(hi: u8) -> (r: u8)
    ensures
        r == target_row_spec(hi),
{
    if hi == 0 { 0x01 } else if hi == 1 { 0x02 } else if hi == 2 { 0x04 }
    else if hi == 3 { 0x08 } else if hi == 4 { 0x10 } else if hi == 5 { 0x20 }
    else if hi == 6 { 0x40 } else if hi == 7 { 0x80 } else { 0x00 }
}

/// Bitmap column for the request-target class.
pub fn target_col_mask(lo: u8) -> (r: u8)
    ensures
        r == target_col_spec(lo),
{
    if lo == 0 { 0xf8 } else if lo == 15 { 0x7c } else { 0xfc }
}

/// Classifies one byte the way the batched validators do: a nibble-indexed
/// bitmap lookup for names and targets, a three-way comparison for values.
/// Proved to agree with the scalar classifier on every byte.
pub fn batched_byte_valid(c: TokenClass, b: u8) -> (r: bool)
    ensures
        r == is_token_byte(c, b),
{
    match c {
        TokenClass::HeaderName => {
            let row: u8 = name_row_mask(b >> 4);
            let col: u8 = name_col_mask(b & 0x0f);
            proof {
                lemma_name_bitmap_agrees(b);
            }
            (row & col) != 0
        }
        TokenClass::HeaderValue => (b > 0x1f || b == 0x09) && b != 0x7f,
        TokenClass::Target => {
            let row: u8 = target_row_mask(b >> 4);
            let col: u8 = target_col_mask(b & 0x0f);
            proof {
                lemma_target_bitmap_agrees(b);
            }
            (row & col) != 0
        }
    }
}

/// Scans whole windows of `BATCH_WIDTH` bytes of `buf` from `pos` on.
/// Every access is a bounds-proven load: the scan cannot read past the
/// end of `buf`, and an input shorter than a window is left entirely to
/// the scalar tail.
///
/// `Ok(p)` means the scan stopped inside a window: every byte of
/// `[pos, p)` is in the class and the byte at `p` is not, so `p` is the run
/// end.  `Err(p)` means fewer than a window of bytes remained at `p`:
/// every byte of `[pos, p)` is in the class and the run end from `pos`
/// equals the run end from `p`, which the scalar tail scan computes.
pub fn batched_validate(c: TokenClass, buf: &[u8], pos: usize) -> (r: Result<usize, usize>)
    requires
        pos <= buf@.len(),
    ensures
        match r {
            Ok(p) => pos <= p < buf@.len() && p == token_run_end(c, buf@, pos as int),
            Err(p) => pos <= p <= buf@.len()
                && buf@.len() - p < BATCH_WIDTH
                && token_run_end(c, buf@, pos as int) == token_run_end(c, buf@, p as int),
        },
{
    let len: usize = buf.len();
    let mut p: usize = pos;
    while len - p >= BATCH_WIDTH
        invariant
            pos <= p <= len,
            len == buf@.len(),
            token_run_end(c, buf@, pos as int) == token_run_end(c, buf@, p as int),
        decreases len - p,
    {
        let mut j: usize = 0;
        while j < BATCH_WIDTH
            invariant
                0 <= j <= BATCH_WIDTH,
                pos <= p,
                p + BATCH_WIDTH <= len,
                len == buf@.len(),
                token_run_end(c, buf@, pos as int) == token_run_end(c, buf@, (p + j) as int),
            decreases BATCH_WIDTH - j,
        {
            let b: u8 = *slice_index_get(buf, p + j);
            if !batched_byte_valid(c, b) {
                proof {
                    assert(token_run_end(c, buf@, (p + j) as int) == p + j);
                }
                return Ok(p + j);
            }
            j += 1;
        }
        p += BATCH_WIDTH;
    }
    Err(p)
}

/// Count of leading class bytes of `buf` from `pos` on: batched windows
/// first, then the scalar classifier over the tail.  Returns the run end,
/// the exact count the scalar classifier alone would produce.
pub fn validate_tokens(c: TokenClass, buf: &[u8], pos: usize) -> (r: usize)
    requires
        pos <= buf@.len(),
    ensures
        r == token_run_end(c, buf@, pos as int),
{
    let start: usize = match batched_validate(c, buf, pos) {
        Ok(p) => {
            return p;
        }
        Err(p) => p,
    };
    let len: usize = buf.len();
    let mut p: usize = start;
    while p < len
        invariant
            pos <= p <= len,
            len == buf@.len(),
            token_run_end(c, buf@, pos as int) == token_run_end(c, buf@, p as int),
        decreases len - p,
    {
        let b: u8 = *slice_index_get(buf, p);
        if !is_class_token(c, b) {
            proof {
                assert(token_run_end(c, buf@, p as int) == p);
            }
            return p;
        }
        p += 1;
    }
    p
}

} // verus!
