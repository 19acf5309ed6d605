//! HTTP/1.1 request parsing.
//!
//! The driver composes the wide-word method and version decoders, the
//! batched token validators and the whitespace helpers into a parse of a
//! whole request.  Every function is specified against the grammar model in
//! [`crate::parser::h1::grammar`], and the driver commits its output only
//! on a complete parse: a partial or failed parse leaves the request
//! untouched.

use vstd::prelude::*;
use vstd::slice::slice_index_get;

use crate::parser::ParseError;
use crate::parser::ParseResult;
use crate::parser::Status;
use crate::parser::h1::discard_whitespace;
use crate::parser::h1::grammar::COLON;
use crate::parser::h1::grammar::CR;
use crate::parser::h1::grammar::HTAB;
use crate::parser::h1::grammar::HeadersPhase;
use crate::parser::h1::grammar::LF;
use crate::parser::h1::discard_required_newline;
use crate::parser::h1::grammar::Phase;
use crate::parser::h1::grammar::ReqOutcome;
use crate::parser::h1::grammar::spec_parse;
use crate::parser::h1::grammar::SP;
use crate::parser::h1::grammar::SpecHeader;
use crate::parser::h1::grammar::bytes_at;
use crate::parser::h1::grammar::hdr_prepend;
use crate::parser::h1::grammar::lemma_hdr_prepend_assoc;
use crate::parser::h1::grammar::lemma_hdr_prepend_empty;
use crate::parser::h1::grammar::lemma_ows_end_bounds;
use crate::parser::h1::grammar::lemma_sp_headers_field_step;
use crate::parser::h1::grammar::sp_headers;
use crate::parser::h1::grammar::sp_method;
use crate::parser::h1::grammar::sp_version;
use crate::parser::h1::grammar::trim_ws_end;
use crate::parser::h1::tokens::lemma_token_run_end_props;
use crate::parser::h1::tokens::TokenClass;
use crate::parser::h1::tokens::token_run_end;
use crate::parser::h1::tokens::validate_tokens;
use crate::parser::method::Method;
use crate::parser::method::method_bytes;
use crate::parser::method::push_method_bytes;
use crate::parser::version::Version;
use crate::parser::version::version_bytes;
use crate::parser::version::push_version_bytes;

verus! {

/// A half-open byte range into the parsed input buffer.
#[derive(Debug, PartialEq, Eq, Structural, Clone, Copy, Default)]
pub struct Span {
    /// First byte of the range.
    pub start: usize,
    /// One past the last byte of the range.
    pub end: usize,
}

/// One parsed header field: byte ranges of its name and its value.
#[derive(Debug, PartialEq, Eq, Structural, Clone, Copy, Default)]
pub struct Header {
    /// Range of the field name.
    pub name: Span,
    /// Range of the field value, trailing whitespace trimmed.
    pub value: Span,
}

/// Eight bytes packed into a word, first byte lowest: the value a
/// little-endian eight-byte load yields.
pub open spec fn le_word(
    b0: u8, b1: u8, b2: u8, b3: u8, b4: u8, b5: u8, b6: u8, b7: u8,
) -> u64 {
    (b0 as u64) | ((b1 as u64) << 8) | ((b2 as u64) << 16) | ((b3 as u64) << 24)
        | ((b4 as u64) << 32) | ((b5 as u64) << 40) | ((b6 as u64) << 48)
        | ((b7 as u64) << 56)
}

/// Loads eight bytes of `buf` at `pos` into a word, first byte lowest.
pub fn load_word_le(buf: &[u8], pos: usize) -> (w: u64)
    requires
        pos + 8 <= buf@.len(),
    ensures
        w == le_word(
            buf@[pos as int], buf@[pos + 1], buf@[pos + 2], buf@[pos + 3],
            buf@[pos + 4], buf@[pos + 5], buf@[pos + 6], buf@[pos + 7],
        ),
{
    let len: usize = buf.len();
    proof {
        assert(pos + 8 <= len);
    }
    let b0: u8 = *slice_index_get(buf, pos);
    let b1: u8 = *slice_index_get(buf, pos + 1);
    let b2: u8 = *slice_index_get(buf, pos + 2);
    let b3: u8 = *slice_index_get(buf, pos + 3);
    let b4: u8 = *slice_index_get(buf, pos + 4);
    let b5: u8 = *slice_index_get(buf, pos + 5);
    let b6: u8 = *slice_index_get(buf, pos + 6);
    let b7: u8 = *slice_index_get(buf, pos + 7);
    (b0 as u64) | ((b1 as u64) << 8) | ((b2 as u64) << 16) | ((b3 as u64) << 24)
        | ((b4 as u64) << 32) | ((b5 as u64) << 40) | ((b6 as u64) << 48)
        | ((b7 as u64) << 56)
}

/// The masked wide-word comparison for `GET` decides byte-wise equality
/// with its literal.
proof fn lemma_window_get(b0: u8, b1: u8, b2: u8, b3: u8, b4: u8, b5: u8, b6: u8, b7: u8)
    ensures
        ((le_word(b0, b1, b2, b3, b4, b5, b6, b7) & 0x0000_0000_00ff_ffffu64) == 0x0000_0000_0054_4547u64) == (b0 == 0x47
            && b1 == 0x45
            && b2 == 0x54),
{
    assert(((((b0 as u64) | ((b1 as u64) << 8) | ((b2 as u64) << 16) | ((b3 as u64) << 24)
        | ((b4 as u64) << 32) | ((b5 as u64) << 40) | ((b6 as u64) << 48)
        | ((b7 as u64) << 56)) & 0x0000_0000_00ff_ffffu64)
        == 0x0000_0000_0054_4547u64) == (b0 == 0x47
            && b1 == 0x45
            && b2 == 0x54)) by (bit_vector);
}

/// The masked wide-word comparison for `PUT` decides byte-wise equality
/// with its literal.
proof fn lemma_window_put(b0: u8, b1: u8, b2: u8, b3: u8, b4: u8, b5: u8, b6: u8, b7: u8)
    ensures
        ((le_word(b0, b1, b2, b3, b4, b5, b6, b7) & 0x0000_0000_00ff_ffffu64) == 0x0000_0000_0054_5550u64) == (b0 == 0x50
            && b1 == 0x55
            && b2 == 0x54),
{
    assert(((((b0 as u64) | ((b1 as u64) << 8) | ((b2 as u64) << 16) | ((b3 as u64) << 24)
        | ((b4 as u64) << 32) | ((b5 as u64) << 40) | ((b6 as u64) << 48)
        | ((b7 as u64) << 56)) & 0x0000_0000_00ff_ffffu64)
        == 0x0000_0000_0054_5550u64) == (b0 == 0x50
            && b1 == 0x55
            && b2 == 0x54)) by (bit_vector);
}

/// The masked wide-word comparison for `POST` decides byte-wise equality
/// with its literal.
proof fn lemma_window_post(b0: u8, b1: u8, b2: u8, b3: u8, b4: u8, b5: u8, b6: u8, b7: u8)
    ensures
        ((le_word(b0, b1, b2, b3, b4, b5, b6, b7) & 0x0000_0000_ffff_ffffu64) == 0x0000_0000_5453_4f50u64) == (b0 == 0x50
            && b1 == 0x4f
            && b2 == 0x53
            && b3 == 0x54),
{
    assert(((((b0 as u64) | ((b1 as u64) << 8) | ((b2 as u64) << 16) | ((b3 as u64) << 24)
        | ((b4 as u64) << 32) | ((b5 as u64) << 40) | ((b6 as u64) << 48)
        | ((b7 as u64) << 56)) & 0x0000_0000_ffff_ffffu64)
        == 0x0000_0000_5453_4f50u64) == (b0 == 0x50
            && b1 == 0x4f
            && b2 == 0x53
            && b3 == 0x54)) by (bit_vector);
}

/// The masked wide-word comparison for `HEAD` decides byte-wise equality
/// with its literal.
proof fn lemma_window_head(b0: u8, b1: u8, b2: u8, b3: u8, b4: u8, b5: u8, b6: u8, b7: u8)
    ensures
        ((le_word(b0, b1, b2, b3, b4, b5, b6, b7) & 0x0000_0000_ffff_ffffu64) == 0x0000_0000_4441_4548u64) == (b0 == 0x48
            && b1 == 0x45
            && b2 == 0x41
            && b3 == 0x44),
{
    assert(((((b0 as u64) | ((b1 as u64) << 8) | ((b2 as u64) << 16) | ((b3 as u64) << 24)
        | ((b4 as u64) << 32) | ((b5 as u64) << 40) | ((b6 as u64) << 48)
        | ((b7 as u64) << 56)) & 0x0000_0000_ffff_ffffu64)
        == 0x0000_0000_4441_4548u64) == (b0 == 0x48
            && b1 == 0x45
            && b2 == 0x41
            && b3 == 0x44)) by (bit_vector);
}

/// The masked wide-word comparison for `TRACE` decides byte-wise equality
/// with its literal.
proof fn lemma_window_trace(b0: u8, b1: u8, b2: u8, b3: u8, b4: u8, b5: u8, b6: u8, b7: u8)
    ensures
        ((le_word(b0, b1, b2, b3, b4, b5, b6, b7) & 0x0000_00ff_ffff_ffffu64) == 0x0000_0045_4341_5254u64) == (b0 == 0x54
            && b1 == 0x52
            && b2 == 0x41
            && b3 == 0x43
            && b4 == 0x45),
{
    assert(((((b0 as u64) | ((b1 as u64) << 8) | ((b2 as u64) << 16) | ((b3 as u64) << 24)
        | ((b4 as u64) << 32) | ((b5 as u64) << 40) | ((b6 as u64) << 48)
        | ((b7 as u64) << 56)) & 0x0000_00ff_ffff_ffffu64)
        == 0x0000_0045_4341_5254u64) == (b0 == 0x54
            && b1 == 0x52
            && b2 == 0x41
            && b3 == 0x43
            && b4 == 0x45)) by (bit_vector);
}

/// The masked wide-word comparison for `DELETE` decides byte-wise equality
/// with its literal.
proof fn lemma_window_delete(b0: u8, b1: u8, b2: u8, b3: u8, b4: u8, b5: u8, b6: u8, b7: u8)
    ensures
        ((le_word(b0, b1, b2, b3, b4, b5, b6, b7) & 0x0000_ffff_ffff_ffffu64) == 0x0000_4554_454c_4544u64) == (b0 == 0x44
            && b1 == 0x45
            && b2 == 0x4c
            && b3 == 0x45
            && b4 == 0x54
            && b5 == 0x45),
{
    assert(((((b0 as u64) | ((b1 as u64) << 8) | ((b2 as u64) << 16) | ((b3 as u64) << 24)
        | ((b4 as u64) << 32) | ((b5 as u64) << 40) | ((b6 as u64) << 48)
        | ((b7 as u64) << 56)) & 0x0000_ffff_ffff_ffffu64)
        == 0x0000_4554_454c_4544u64) == (b0 == 0x44
            && b1 == 0x45
            && b2 == 0x4c
            && b3 == 0x45
            && b4 == 0x54
            && b5 == 0x45)) by (bit_vector);
}

/// The masked wide-word comparison for `OPTIONS` decides byte-wise equality
/// with its literal.
proof fn lemma_window_options(b0: u8, b1: u8, b2: u8, b3: u8, b4: u8, b5: u8, b6: u8, b7: u8)
    ensures
        ((le_word(b0, b1, b2, b3, b4, b5, b6, b7) & 0x00ff_ffff_ffff_ffffu64) == 0x0053_4e4f_4954_504fu64) == (b0 == 0x4f
            && b1 == 0x50
            && b2 == 0x54
            && b3 == 0x49
            && b4 == 0x4f
            && b5 == 0x4e
            && b6 == 0x53),
{
    assert(((((b0 as u64) | ((b1 as u64) << 8) | ((b2 as u64) << 16) | ((b3 as u64) << 24)
        | ((b4 as u64) << 32) | ((b5 as u64) << 40) | ((b6 as u64) << 48)
        | ((b7 as u64) << 56)) & 0x00ff_ffff_ffff_ffffu64)
        == 0x0053_4e4f_4954_504fu64) == (b0 == 0x4f
            && b1 == 0x50
            && b2 == 0x54
            && b3 == 0x49
            && b4 == 0x4f
            && b5 == 0x4e
            && b6 == 0x53)) by (bit_vector);
}

/// The masked wide-word comparison for `CONNECT` decides byte-wise equality
/// with its literal.
proof fn lemma_window_connect(b0: u8, b1: u8, b2: u8, b3: u8, b4: u8, b5: u8, b6: u8, b7: u8)
    ensures
        ((le_word(b0, b1, b2, b3, b4, b5, b6, b7) & 0x00ff_ffff_ffff_ffffu64) == 0x0054_4345_4e4e_4f43u64) == (b0 == 0x43
            && b1 == 0x4f
            && b2 == 0x4e
            && b3 == 0x4e
            && b4 == 0x45
            && b5 == 0x43
            && b6 == 0x54),
{
    assert(((((b0 as u64) | ((b1 as u64) << 8) | ((b2 as u64) << 16) | ((b3 as u64) << 24)
        | ((b4 as u64) << 32) | ((b5 as u64) << 40) | ((b6 as u64) << 48)
        | ((b7 as u64) << 56)) & 0x00ff_ffff_ffff_ffffu64)
        == 0x0054_4345_4e4e_4f43u64) == (b0 == 0x43
            && b1 == 0x4f
            && b2 == 0x4e
            && b3 == 0x4e
            && b4 == 0x45
            && b5 == 0x43
            && b6 == 0x54)) by (bit_vector);
}

/// The masked wide-word comparison for `HTTP/1.1` decides byte-wise equality
/// with its literal.
proof fn lemma_window_h1_1(b0: u8, b1: u8, b2: u8, b3: u8, b4: u8, b5: u8, b6: u8, b7: u8)
    ensures
        (le_word(b0, b1, b2, b3, b4, b5, b6, b7) == 0x312e_312f_5054_5448u64) == (b0 == 0x48
            && b1 == 0x54
            && b2 == 0x54
            && b3 == 0x50
            && b4 == 0x2f
            && b5 == 0x31
            && b6 == 0x2e
            && b7 == 0x31),
{
    assert((((b0 as u64) | ((b1 as u64) << 8) | ((b2 as u64) << 16) | ((b3 as u64) << 24)
        | ((b4 as u64) << 32) | ((b5 as u64) << 40) | ((b6 as u64) << 48)
        | ((b7 as u64) << 56))
        == 0x312e_312f_5054_5448u64) == (b0 == 0x48
            && b1 == 0x54
            && b2 == 0x54
            && b3 == 0x50
            && b4 == 0x2f
            && b5 == 0x31
            && b6 == 0x2e
            && b7 == 0x31)) by (bit_vector);
}

/// The masked wide-word comparison for `HTTP/1.0` decides byte-wise equality
/// with its literal.
proof fn lemma_window_h1_0(b0: u8, b1: u8, b2: u8, b3: u8, b4: u8, b5: u8, b6: u8, b7: u8)
    ensures
        (le_word(b0, b1, b2, b3, b4, b5, b6, b7) == 0x302e_312f_5054_5448u64) == (b0 == 0x48
            && b1 == 0x54
            && b2 == 0x54
            && b3 == 0x50
            && b4 == 0x2f
            && b5 == 0x31
            && b6 == 0x2e
            && b7 == 0x30),
{
    assert((((b0 as u64) | ((b1 as u64) << 8) | ((b2 as u64) << 16) | ((b3 as u64) << 24)
        | ((b4 as u64) << 32) | ((b5 as u64) << 40) | ((b6 as u64) << 48)
        | ((b7 as u64) << 56))
        == 0x302e_312f_5054_5448u64) == (b0 == 0x48
            && b1 == 0x54
            && b2 == 0x54
            && b3 == 0x50
            && b4 == 0x2f
            && b5 == 0x31
            && b6 == 0x2e
            && b7 == 0x30)) by (bit_vector);
}

/// The masked wide-word comparison for `HTTP/2` decides byte-wise equality
/// with its literal.
proof fn lemma_window_h2(b0: u8, b1: u8, b2: u8, b3: u8, b4: u8, b5: u8, b6: u8, b7: u8)
    ensures
        ((le_word(b0, b1, b2, b3, b4, b5, b6, b7) & 0x0000_ffff_ffff_ffffu64) == 0x0000_322f_5054_5448u64) == (b0 == 0x48
            && b1 == 0x54
            && b2 == 0x54
            && b3 == 0x50
            && b4 == 0x2f
            && b5 == 0x32),
{
    assert(((((b0 as u64) | ((b1 as u64) << 8) | ((b2 as u64) << 16) | ((b3 as u64) << 24)
        | ((b4 as u64) << 32) | ((b5 as u64) << 40) | ((b6 as u64) << 48)
        | ((b7 as u64) << 56)) & 0x0000_ffff_ffff_ffffu64)
        == 0x0000_322f_5054_5448u64) == (b0 == 0x48
            && b1 == 0x54
            && b2 == 0x54
            && b3 == 0x50
            && b4 == 0x2f
            && b5 == 0x32)) by (bit_vector);
}

/// The masked wide-word comparison for `HTTP/3` decides byte-wise equality
/// with its literal.
proof fn lemma_window_h3(b0: u8, b1: u8, b2: u8, b3: u8, b4: u8, b5: u8, b6: u8, b7: u8)
    ensures
        ((le_word(b0, b1, b2, b3, b4, b5, b6, b7) & 0x0000_ffff_ffff_ffffu64) == 0x0000_332f_5054_5448u64) == (b0 == 0x48
            && b1 == 0x54
            && b2 == 0x54
            && b3 == 0x50
            && b4 == 0x2f
            && b5 == 0x33),
{
    assert(((((b0 as u64) | ((b1 as u64) << 8) | ((b2 as u64) << 16) | ((b3 as u64) << 24)
        | ((b4 as u64) << 32) | ((b5 as u64) << 40) | ((b6 as u64) << 48)
        | ((b7 as u64) << 56)) & 0x0000_ffff_ffff_ffffu64)
        == 0x0000_332f_5054_5448u64) == (b0 == 0x48
            && b1 == 0x54
            && b2 == 0x54
            && b3 == 0x50
            && b4 == 0x2f
            && b5 == 0x33)) by (bit_vector);
}

/// The method literals, byte by byte.
proof fn lemma_method_literals()
    ensures
        method_bytes(Method::Get).len() == 3,
        method_bytes(Method::Get)[0] == 0x47,
        method_bytes(Method::Get)[1] == 0x45,
        method_bytes(Method::Get)[2] == 0x54,
        method_bytes(Method::Put).len() == 3,
        method_bytes(Method::Put)[0] == 0x50,
        method_bytes(Method::Put)[1] == 0x55,
        method_bytes(Method::Put)[2] == 0x54,
        method_bytes(Method::Post).len() == 4,
        method_bytes(Method::Post)[0] == 0x50,
        method_bytes(Method::Post)[1] == 0x4f,
        method_bytes(Method::Post)[2] == 0x53,
        method_bytes(Method::Post)[3] == 0x54,
        method_bytes(Method::Head).len() == 4,
        method_bytes(Method::Head)[0] == 0x48,
        method_bytes(Method::Head)[1] == 0x45,
        method_bytes(Method::Head)[2] == 0x41,
        method_bytes(Method::Head)[3] == 0x44,
        method_bytes(Method::Trace).len() == 5,
        method_bytes(Method::Trace)[0] == 0x54,
        method_bytes(Method::Trace)[1] == 0x52,
        method_bytes(Method::Trace)[2] == 0x41,
        method_bytes(Method::Trace)[3] == 0x43,
        method_bytes(Method::Trace)[4] == 0x45,
        method_bytes(Method::Delete).len() == 6,
        method_bytes(Method::Delete)[0] == 0x44,
        method_bytes(Method::Delete)[1] == 0x45,
        method_bytes(Method::Delete)[2] == 0x4c,
        method_bytes(Method::Delete)[3] == 0x45,
        method_bytes(Method::Delete)[4] == 0x54,
        method_bytes(Method::Delete)[5] == 0x45,
        method_bytes(Method::Options).len() == 7,
        method_bytes(Method::Options)[0] == 0x4f,
        method_bytes(Method::Options)[1] == 0x50,
        method_bytes(Method::Options)[2] == 0x54,
        method_bytes(Method::Options)[3] == 0x49,
        method_bytes(Method::Options)[4] == 0x4f,
        method_bytes(Method::Options)[5] == 0x4e,
        method_bytes(Method::Options)[6] == 0x53,
        method_bytes(Method::Connect).len() == 7,
        method_bytes(Method::Connect)[0] == 0x43,
        method_bytes(Method::Connect)[1] == 0x4f,
        method_bytes(Method::Connect)[2] == 0x4e,
        method_bytes(Method::Connect)[3] == 0x4e,
        method_bytes(Method::Connect)[4] == 0x45,
        method_bytes(Method::Connect)[5] == 0x43,
        method_bytes(Method::Connect)[6] == 0x54,
{
}

/// The version literals, byte by byte.
proof fn lemma_version_literals()
    ensures
        version_bytes(Version::H1_1).len() == 8,
        version_bytes(Version::H1_1)[0] == 0x48,
        version_bytes(Version::H1_1)[1] == 0x54,
        version_bytes(Version::H1_1)[2] == 0x54,
        version_bytes(Version::H1_1)[3] == 0x50,
        version_bytes(Version::H1_1)[4] == 0x2f,
        version_bytes(Version::H1_1)[5] == 0x31,
        version_bytes(Version::H1_1)[6] == 0x2e,
        version_bytes(Version::H1_1)[7] == 0x31,
        version_bytes(Version::H1_0).len() == 8,
        version_bytes(Version::H1_0)[0] == 0x48,
        version_bytes(Version::H1_0)[1] == 0x54,
        version_bytes(Version::H1_0)[2] == 0x54,
        version_bytes(Version::H1_0)[3] == 0x50,
        version_bytes(Version::H1_0)[4] == 0x2f,
        version_bytes(Version::H1_0)[5] == 0x31,
        version_bytes(Version::H1_0)[6] == 0x2e,
        version_bytes(Version::H1_0)[7] == 0x30,
        version_bytes(Version::H2).len() == 6,
        version_bytes(Version::H2)[0] == 0x48,
        version_bytes(Version::H2)[1] == 0x54,
        version_bytes(Version::H2)[2] == 0x54,
        version_bytes(Version::H2)[3] == 0x50,
        version_bytes(Version::H2)[4] == 0x2f,
        version_bytes(Version::H2)[5] == 0x32,
        version_bytes(Version::H3).len() == 6,
        version_bytes(Version::H3)[0] == 0x48,
        version_bytes(Version::H3)[1] == 0x54,
        version_bytes(Version::H3)[2] == 0x54,
        version_bytes(Version::H3)[3] == 0x50,
        version_bytes(Version::H3)[4] == 0x2f,
        version_bytes(Version::H3)[5] == 0x33,
{
}

/// `bytes_at` for a literal of at most eight bytes is the conjunction of
/// its byte equations.
proof fn lemma_bytes_at_unfold(s: Seq<u8>, pos: int, lit: Seq<u8>)
    requires
        0 <= pos,
        pos + lit.len() <= s.len(),
        1 <= lit.len() <= 8,
    ensures
        bytes_at(s, pos, lit) == (s[pos] == lit[0]
            && (lit.len() <= 1 || s[pos + 1] == lit[1])
            && (lit.len() <= 2 || s[pos + 2] == lit[2])
            && (lit.len() <= 3 || s[pos + 3] == lit[3])
            && (lit.len() <= 4 || s[pos + 4] == lit[4])
            && (lit.len() <= 5 || s[pos + 5] == lit[5])
            && (lit.len() <= 6 || s[pos + 6] == lit[6])
            && (lit.len() <= 7 || s[pos + 7] == lit[7])),
{
    let conj = s[pos] == lit[0]
        && (lit.len() <= 1 || s[pos + 1] == lit[1])
        && (lit.len() <= 2 || s[pos + 2] == lit[2])
        && (lit.len() <= 3 || s[pos + 3] == lit[3])
        && (lit.len() <= 4 || s[pos + 4] == lit[4])
        && (lit.len() <= 5 || s[pos + 5] == lit[5])
        && (lit.len() <= 6 || s[pos + 6] == lit[6])
        && (lit.len() <= 7 || s[pos + 7] == lit[7]);
    if conj {
        assert forall|i: int| 0 <= i < lit.len() implies s[pos + i] == #[trigger] lit[i] by {
            if i == 0 {
                assert(s[pos + 0] == lit[0]);
            } else if i == 1 {
                assert(s[pos + 1] == lit[1]);
            } else if i == 2 {
                assert(s[pos + 2] == lit[2]);
            } else if i == 3 {
                assert(s[pos + 3] == lit[3]);
            } else if i == 4 {
                assert(s[pos + 4] == lit[4]);
            } else if i == 5 {
                assert(s[pos + 5] == lit[5]);
            } else if i == 6 {
                assert(s[pos + 6] == lit[6]);
            } else if i == 7 {
                assert(s[pos + 7] == lit[7]);
            }
        }
        assert(bytes_at(s, pos, lit));
    }
    if bytes_at(s, pos, lit) {
        assert(s[pos + 0] == lit[0]);
        assert(lit.len() > 1 ==> s[pos + 1] == lit[1]);
        assert(lit.len() > 2 ==> s[pos + 2] == lit[2]);
        assert(lit.len() > 3 ==> s[pos + 3] == lit[3]);
        assert(lit.len() > 4 ==> s[pos + 4] == lit[4]);
        assert(lit.len() > 5 ==> s[pos + 5] == lit[5]);
        assert(lit.len() > 6 ==> s[pos + 6] == lit[6]);
        assert(lit.len() > 7 ==> s[pos + 7] == lit[7]);
        assert(conj);
    }
}

/// Decodes the request method from the start of `buf` with a single
/// eight-byte load and masked comparisons against the packed literals, in
/// a fixed priority order.  Needs a full eight-byte window; shorter input
/// is `Partial`.
pub fn parse_method(buf: &[u8]) -> (r: ParseResult<(usize, Method)>)
    ensures
        (match sp_method(buf@) {
            Phase::More => r == Ok::<Status<(usize, Method)>, ParseError>(Status::Partial),
            Phase::Bad(e) => r == Err::<Status<(usize, Method)>, ParseError>(e),
            Phase::Got(p, m) => r == Ok::<Status<(usize, Method)>, ParseError>(
                Status::Complete((p as usize, m))),
        }),
{
    if buf.len() < 8 {
        return Ok(Status::Partial);
    }
    let w: u64 = load_word_le(buf, 0);
    proof {
        let s = buf@;
        lemma_method_literals();
        lemma_window_get(s[0], s[1], s[2], s[3], s[4], s[5], s[6], s[7]);
        lemma_window_put(s[0], s[1], s[2], s[3], s[4], s[5], s[6], s[7]);
        lemma_window_post(s[0], s[1], s[2], s[3], s[4], s[5], s[6], s[7]);
        lemma_window_head(s[0], s[1], s[2], s[3], s[4], s[5], s[6], s[7]);
        lemma_window_trace(s[0], s[1], s[2], s[3], s[4], s[5], s[6], s[7]);
        lemma_window_delete(s[0], s[1], s[2], s[3], s[4], s[5], s[6], s[7]);
        lemma_window_options(s[0], s[1], s[2], s[3], s[4], s[5], s[6], s[7]);
        lemma_window_connect(s[0], s[1], s[2], s[3], s[4], s[5], s[6], s[7]);
        lemma_bytes_at_unfold(s, 0, method_bytes(Method::Get));
        lemma_bytes_at_unfold(s, 0, method_bytes(Method::Put));
        lemma_bytes_at_unfold(s, 0, method_bytes(Method::Post));
        lemma_bytes_at_unfold(s, 0, method_bytes(Method::Head));
        lemma_bytes_at_unfold(s, 0, method_bytes(Method::Trace));
        lemma_bytes_at_unfold(s, 0, method_bytes(Method::Delete));
        lemma_bytes_at_unfold(s, 0, method_bytes(Method::Options));
        lemma_bytes_at_unfold(s, 0, method_bytes(Method::Connect));
    }
    if w & 0x0000_0000_00ff_ffff == 0x0000_0000_0054_4547 {
        Ok(Status::Complete((3, Method::Get)))
    } else if w & 0x0000_0000_00ff_ffff == 0x0000_0000_0054_5550 {
        Ok(Status::Complete((3, Method::Put)))
    } else if w & 0x0000_0000_ffff_ffff == 0x0000_0000_5453_4f50 {
        Ok(Status::Complete((4, Method::Post)))
    } else if w & 0x0000_0000_ffff_ffff == 0x0000_0000_4441_4548 {
        Ok(Status::Complete((4, Method::Head)))
    } else if w & 0x0000_00ff_ffff_ffff == 0x0000_0045_4341_5254 {
        Ok(Status::Complete((5, Method::Trace)))
    } else if w & 0x0000_ffff_ffff_ffff == 0x0000_4554_454c_4544 {
        Ok(Status::Complete((6, Method::Delete)))
    } else if w & 0x00ff_ffff_ffff_ffff == 0x0053_4e4f_4954_504f {
        Ok(Status::Complete((7, Method::Options)))
    } else if w & 0x00ff_ffff_ffff_ffff == 0x0054_4345_4e4e_4f43 {
        Ok(Status::Complete((7, Method::Connect)))
    } else {
        Err(ParseError::Method)
    }
}

/// Decodes the protocol version at `pos` with a single eight-byte load:
/// full-word equality for the eight-byte literals, masked equality for the
/// six-byte ones.  Needs a full eight-byte window; shorter input is
/// `Partial`.
pub fn parse_version(buf: &[u8], pos: usize) -> (r: ParseResult<(usize, Version)>)
    requires
        pos <= buf@.len(),
    ensures
        (match sp_version(buf@, pos as int) {
            Phase::More => r == Ok::<Status<(usize, Version)>, ParseError>(Status::Partial),
            Phase::Bad(e) => r == Err::<Status<(usize, Version)>, ParseError>(e),
            Phase::Got(p, v) => r == Ok::<Status<(usize, Version)>, ParseError>(
                Status::Complete((p as usize, v))),
        }),
{
    if buf.len() - pos < 8 {
        return Ok(Status::Partial);
    }
    let w: u64 = load_word_le(buf, pos);
    proof {
        let s = buf@;
        let p = pos as int;
        lemma_version_literals();
        lemma_window_h1_1(s[p], s[p + 1], s[p + 2], s[p + 3], s[p + 4], s[p + 5], s[p + 6], s[p + 7]);
        lemma_window_h1_0(s[p], s[p + 1], s[p + 2], s[p + 3], s[p + 4], s[p + 5], s[p + 6], s[p + 7]);
        lemma_window_h2(s[p], s[p + 1], s[p + 2], s[p + 3], s[p + 4], s[p + 5], s[p + 6], s[p + 7]);
        lemma_window_h3(s[p], s[p + 1], s[p + 2], s[p + 3], s[p + 4], s[p + 5], s[p + 6], s[p + 7]);
        lemma_bytes_at_unfold(s, p, version_bytes(Version::H1_1));
        lemma_bytes_at_unfold(s, p, version_bytes(Version::H1_0));
        lemma_bytes_at_unfold(s, p, version_bytes(Version::H2));
        lemma_bytes_at_unfold(s, p, version_bytes(Version::H3));
    }
    if w == 0x312e_312f_5054_5448 {
        Ok(Status::Complete((pos + 8, Version::H1_1)))
    } else if w == 0x302e_312f_5054_5448 {
        Ok(Status::Complete((pos + 8, Version::H1_0)))
    } else if w & 0x0000_ffff_ffff_ffff == 0x0000_322f_5054_5448 {
        Ok(Status::Complete((pos + 6, Version::H2)))
    } else if w & 0x0000_ffff_ffff_ffff == 0x0000_332f_5054_5448 {
        Ok(Status::Complete((pos + 6, Version::H3)))
    } else {
        Err(ParseError::Version)
    }
}

/// Scans the request-target at `pos`: the longest run of target bytes.
/// `Partial` if the run reaches the end of input, else the run and the
/// position of the byte that stopped it.  The run may be empty; the driver
/// rejects an empty target.
pub fn parse_target(buf: &[u8], pos: usize) -> (r: ParseResult<(usize, Span)>)
    requires
        pos <= buf@.len(),
    ensures
        ({
            let e = token_run_end(TokenClass::Target, buf@, pos as int);
            if e == buf@.len() {
                r == Ok::<Status<(usize, Span)>, ParseError>(Status::Partial)
            } else {
                r == Ok::<Status<(usize, Span)>, ParseError>(Status::Complete(
                    (e as usize, (Span { start: pos, end: e as usize })),
                ))
            }
        }),
{
    let e: usize = validate_tokens(TokenClass::Target, buf, pos);
    if e == buf.len() {
        Ok(Status::Partial)
    } else {
        Ok(Status::Complete((e, Span { start: pos, end: e })))
    }
}

/// Scans a header name at `pos`: the longest run of `tchar` bytes.
/// `Partial` if the run reaches the end of input; an error if it is empty;
/// else the run and the position of the byte that stopped it.
pub fn get_header_name(buf: &[u8], pos: usize) -> (r: ParseResult<(usize, Span)>)
    requires
        pos <= buf@.len(),
    ensures
        ({
            let e = token_run_end(TokenClass::HeaderName, buf@, pos as int);
            if e == buf@.len() {
                r == Ok::<Status<(usize, Span)>, ParseError>(Status::Partial)
            } else if e == pos {
                r == Err::<Status<(usize, Span)>, ParseError>(ParseError::HeaderName)
            } else {
                r == Ok::<Status<(usize, Span)>, ParseError>(Status::Complete(
                    (e as usize, (Span { start: pos, end: e as usize })),
                ))
            }
        }),
{
    let e: usize = validate_tokens(TokenClass::HeaderName, buf, pos);
    if e == buf.len() {
        Ok(Status::Partial)
    } else if e == pos {
        Err(ParseError::HeaderName)
    } else {
        Ok(Status::Complete((e, Span { start: pos, end: e })))
    }
}

/// Scans a header value at `pos`: the longest run of value bytes.
/// `Partial` if the run reaches the end of input; an error if it is empty;
/// else the run and the position of the byte that stopped it.
pub fn get_header_value(buf: &[u8], pos: usize) -> (r: ParseResult<(usize, Span)>)
    requires
        pos <= buf@.len(),
    ensures
        ({
            let e = token_run_end(TokenClass::HeaderValue, buf@, pos as int);
            if e == buf@.len() {
                r == Ok::<Status<(usize, Span)>, ParseError>(Status::Partial)
            } else if e == pos {
                r == Err::<Status<(usize, Span)>, ParseError>(ParseError::HeaderValue)
            } else {
                r == Ok::<Status<(usize, Span)>, ParseError>(Status::Complete(
                    (e as usize, (Span { start: pos, end: e as usize })),
                ))
            }
        }),
{
    let e: usize = validate_tokens(TokenClass::HeaderValue, buf, pos);
    if e == buf.len() {
        Ok(Status::Partial)
    } else if e == pos {
        Err(ParseError::HeaderValue)
    } else {
        Ok(Status::Complete((e, Span { start: pos, end: e })))
    }
}


/// Upper bound on the number of header fields a request may carry.
pub const MAX_HEADERS: usize = 96;

/// The parsed header vector mirrors the model's fields, range for range.
pub open spec fn headers_match(v: Seq<Header>, hs: Seq<SpecHeader>) -> bool {
    &&& v.len() == hs.len()
    &&& forall|i: int| 0 <= i < v.len() ==> {
        &&& (#[trigger] v[i]).name.start == hs[i].name_start
        &&& v[i].name.end == hs[i].name_end
        &&& v[i].value.start == hs[i].value_start
        &&& v[i].value.end == hs[i].value_end
    }
}

/// Moves `end` left past trailing `SP` / `HTAB`, never below `start`.
fn trim_value_end(buf: &[u8], start: usize, end: usize) -> (r: usize)
    requires
        start <= end <= buf@.len(),
    ensures
        r == trim_ws_end(buf@, start as int, end as int),
        start <= r <= end,
{
    let mut e: usize = end;
    while e > start
        invariant
            start <= e <= end,
            end <= buf@.len(),
            trim_ws_end(buf@, start as int, end as int) == trim_ws_end(
                buf@, start as int, e as int,
            ),
        decreases e,
    {
        let b: u8 = *slice_index_get(buf, e - 1);
        if b != SP && b != HTAB {
            return e;
        }
        e -= 1;
    }
    e
}

/// Parses the header section of `buf` from `pos` on, with storage for at
/// most `cap` fields.  On success returns the position after the final
/// `CRLF` and the parsed fields in wire order; reports `Partial` if the
/// input ends inside the section, and an error naming the offending
/// component otherwise, `Capacity` when a well-formed field beyond `cap`
/// is presented.
pub fn parse_headers(buf: &[u8], pos: usize, cap: usize) -> (r: Result<
    Status<(usize, Vec<Header>)>,
    ParseError,
>)
    requires
        pos <= buf@.len(),
    ensures
        (match sp_headers(buf@, pos as int, cap as nat) {
            HeadersPhase::More => r == Ok::<Status<(usize, Vec<Header>)>, ParseError>(
                Status::Partial,
            ),
            HeadersPhase::Bad(e) => r == Err::<Status<(usize, Vec<Header>)>, ParseError>(e),
            HeadersPhase::Got(hs, end) => (match r {
                Ok(Status::Complete((e2, v))) => e2 == end && headers_match(v@, hs),
                _ => false,
            }),
        }),
{
    let len: usize = buf.len();
    let mut headers: Vec<Header> = Vec::new();
    let ghost mut done: Seq<SpecHeader> = Seq::empty();
    let mut p: usize = pos;
    proof {
        lemma_hdr_prepend_empty(sp_headers(buf@, pos as int, cap as nat));
    }
    loop
        invariant
            pos <= p <= len,
            len == buf@.len(),
            headers@.len() == done.len(),
            headers@.len() <= cap,
            headers_match(headers@, done),
            sp_headers(buf@, pos as int, cap as nat) == hdr_prepend(
                done,
                sp_headers(buf@, p as int, (cap - headers@.len()) as nat),
            ),
        decreases len - p,
    {
        let ghost room = (cap - headers@.len()) as nat;
        if p == len {
            return Ok(Status::Partial);
        }
        let b: u8 = *slice_index_get(buf, p);
        if b == CR {
            if p + 1 == len {
                return Ok(Status::Partial);
            }
            let b1: u8 = *slice_index_get(buf, p + 1);
            if b1 == LF {
                proof {
                    assert(done + Seq::<SpecHeader>::empty() =~= done);
                }
                return Ok(Status::Complete((p + 2, headers)));
            }
            return Err(ParseError::NewLine);
        }
        let ne: usize = validate_tokens(TokenClass::HeaderName, buf, p);
        proof {
            lemma_token_run_end_props(TokenClass::HeaderName, buf@, p as int);
        }
        if ne == len {
            return Ok(Status::Partial);
        }
        if ne == p {
            return Err(ParseError::HeaderName);
        }
        let cb: u8 = *slice_index_get(buf, ne);
        if cb != COLON {
            return Err(ParseError::HeaderName);
        }
        let vs: usize = match discard_whitespace(buf, ne + 1) {
            Some(v) => v,
            None => {
                return Ok(Status::Partial);
            }
        };
        proof {
            lemma_ows_end_bounds(buf@, ne + 1);
        }
        let ve: usize = validate_tokens(TokenClass::HeaderValue, buf, vs);
        proof {
            lemma_token_run_end_props(TokenClass::HeaderValue, buf@, vs as int);
        }
        if ve == len {
            return Ok(Status::Partial);
        }
        if ve == vs {
            return Err(ParseError::HeaderValue);
        }
        let c0: u8 = *slice_index_get(buf, ve);
        if c0 != CR {
            return Err(ParseError::NewLine);
        }
        if ve + 1 == len {
            return Ok(Status::Partial);
        }
        let c1: u8 = *slice_index_get(buf, ve + 1);
        if c1 != LF {
            return Err(ParseError::NewLine);
        }
        if headers.len() == cap {
            return Err(ParseError::Capacity);
        }
        let vend: usize = trim_value_end(buf, vs, ve);
        let ghost h = SpecHeader {
            name_start: p as int,
            name_end: ne as int,
            value_start: vs as int,
            value_end: vend as int,
        };
        proof {
            lemma_sp_headers_field_step(buf@, p as int, room);
            lemma_hdr_prepend_assoc(done, h, sp_headers(buf@, ve + 2, (room - 1) as nat));
            done = done.push(h);
        }
        headers.push(
            Header { name: Span { start: p, end: ne }, value: Span { start: vs, end: vend } },
        );
        p = ve + 2;
    }
}


/// A parsed HTTP/1.1 request (IETF RFC 9112): the accumulated input
/// bytes and, once a parse has completed, the decoded fields as byte
/// ranges into them.
#[derive(Debug)]
pub struct H1Request {
    data: Vec<u8>,
    /// Whether a parse has completed on the accumulated bytes.
    pub complete: bool,
    /// The decoded method, once complete.
    pub method: Option<Method>,
    /// The request-target's byte range, once complete.
    pub target: Option<Span>,
    /// The decoded version, once complete.
    pub version: Option<Version>,
    /// The parsed header fields in wire order, once complete.
    pub headers: Option<Vec<Header>>,
}

impl H1Request {
    /// The bytes accumulated so far.
    pub closed spec fn input(&self) -> Seq<u8> {
        self.data@
    }

    /// Whether a parse has completed, as seen by contracts.
    pub closed spec fn spec_complete(&self) -> bool {
        self.complete
    }

    /// The committed method, as seen by contracts.
    pub closed spec fn spec_method(&self) -> Option<Method> {
        self.method
    }

    /// The committed target range, as seen by contracts.
    pub closed spec fn spec_target(&self) -> Option<Span> {
        self.target
    }

    /// The committed version, as seen by contracts.
    pub closed spec fn spec_version(&self) -> Option<Version> {
        self.version
    }

    /// The committed header fields, as seen by contracts.
    pub closed spec fn spec_headers(&self) -> Option<Seq<Header>> {
        match self.headers {
            Some(v) => Some(v@),
            None => None,
        }
    }

    /// Creates a new HTTP/1.1 request with an empty buffer.
    pub fn new() -> (r: Self)
        ensures
            r.input() == Seq::<u8>::empty(),
            !r.spec_complete(),
            r.spec_method() is None,
            r.spec_target() is None,
            r.spec_version() is None,
            r.spec_headers() is None,
    {
        H1Request {
            data: Vec::new(),
            complete: false,
            method: None,
            target: None,
            version: None,
            headers: None,
        }
    }

    /// Appends received bytes to the request buffer; returns how many
    /// were taken, which is always all of them.
    pub fn fill(&mut self, bytes: &[u8]) -> (r: usize)
        ensures
            final(self).input() == old(self).input() + bytes@,
            r == bytes@.len(),
            final(self).spec_complete() == old(self).spec_complete(),
            final(self).spec_method() == old(self).spec_method(),
            final(self).spec_target() == old(self).spec_target(),
            final(self).spec_version() == old(self).spec_version(),
            final(self).spec_headers() == old(self).spec_headers(),
    {
        let n: usize = bytes.len();
        let mut i: usize = 0;
        while i < n
            invariant
                i <= n,
                n == bytes@.len(),
                self.data@ == old(self).data@ + bytes@.take(i as int),
                self.complete == old(self).complete,
                self.method == old(self).method,
                self.target == old(self).target,
                self.version == old(self).version,
                self.headers == old(self).headers,
            decreases n - i,
        {
            let b: u8 = *slice_index_get(bytes, i);
            self.data.push(b);
            i += 1;
            proof {
                assert(self.data@ =~= old(self).data@ + bytes@.take(i as int));
            }
        }
        proof {
            assert(old(self).data@ + bytes@.take(n as int) =~= old(self).data@ + bytes@);
        }
        n
    }

    /// Parses the accumulated bytes as an HTTP/1.1 request with storage
    /// for up to [`MAX_HEADERS`] header fields.
    ///
    /// On a complete request the decoded fields are committed and the
    /// consumed byte count (through the final `CRLF`) is returned.  On
    /// `Partial`, and on an error naming the offending component, the
    /// request is left exactly as it was.
    pub fn parse(&mut self) -> (r: ParseResult<usize>)
        ensures
            final(self).input() == old(self).input(),
            (match spec_parse(old(self).input(), MAX_HEADERS as nat) {
                ReqOutcome::Incomplete => r == Ok::<Status<usize>, ParseError>(Status::Partial)
                    && *final(self) == *old(self),
                ReqOutcome::Failed(e) => r == Err::<Status<usize>, ParseError>(e)
                    && *final(self) == *old(self),
                ReqOutcome::Parsed(pr) => r == Ok::<Status<usize>, ParseError>(Status::Complete(
                    pr.consumed as usize,
                ))
                    && final(self).spec_complete()
                    && final(self).spec_method() == Some(pr.method)
                    && final(self).spec_target() == Some(
                    (Span { start: pr.target_start as usize, end: pr.target_end as usize }),
                )
                    && final(self).spec_version() == Some(pr.version)
                    && (final(self).spec_headers() matches Some(v) && headers_match(
                    v,
                    pr.headers,
                )),
            }),
    {
        let buf: &[u8] = self.data.as_slice();
        let (p1, m) = match parse_method(buf) {
            Ok(Status::Complete(t)) => t,
            Ok(Status::Partial) => {
                return Ok(Status::Partial);
            },
            Err(e) => {
                return Err(e);
            },
        };
        if p1 == buf.len() {
            return Ok(Status::Partial);
        }
        let c: u8 = *slice_index_get(buf, p1);
        if c != SP {
            return Err(ParseError::Method);
        }
        let p2: usize = p1 + 1;
        let (e3, tspan) = match parse_target(buf, p2) {
            Ok(Status::Complete(t)) => t,
            Ok(Status::Partial) => {
                return Ok(Status::Partial);
            },
            Err(e) => {
                return Err(e);
            },
        };
        proof {
            lemma_token_run_end_props(TokenClass::Target, buf@, p2 as int);
        }
        if tspan.start == tspan.end {
            return Err(ParseError::Target);
        }
        let c2: u8 = *slice_index_get(buf, e3);
        if c2 != SP {
            return Err(ParseError::Target);
        }
        let p3: usize = e3 + 1;
        let (p4, v) = match parse_version(buf, p3) {
            Ok(Status::Complete(t)) => t,
            Ok(Status::Partial) => {
                return Ok(Status::Partial);
            },
            Err(e) => {
                return Err(e);
            },
        };
        let p5: usize = match discard_required_newline(buf, p4, ParseError::NewLine) {
            Ok(Status::Complete(p)) => p,
            Ok(Status::Partial) => {
                return Ok(Status::Partial);
            },
            Err(e) => {
                return Err(e);
            },
        };
        match parse_headers(buf, p5, MAX_HEADERS) {
            Ok(Status::Partial) => Ok(Status::Partial),
            Ok(Status::Complete((end, hv))) => {
                self.method = Some(m);
                self.target = Some(tspan);
                self.version = Some(v);
                self.headers = Some(hv);
                self.complete = true;
                Ok(Status::Complete(end))
            },
            Err(e) => Err(e),
        }
    }
}


/// The wire form of the header section given the parsed fields: each
/// field as `name ": " value CRLF`, then the blank line.
pub open spec fn spec_serialize_headers(s: Seq<u8>, hs: Seq<Header>) -> Seq<u8>
    decreases hs.len(),
{
    if hs.len() == 0 {
        seq![CR, LF]
    } else {
        s.subrange(hs[0].name.start as int, hs[0].name.end as int) + seq![COLON, SP]
            + s.subrange(hs[0].value.start as int, hs[0].value.end as int) + seq![CR, LF]
            + spec_serialize_headers(s, hs.drop_first())
    }
}

/// The wire form of a parsed request: the request line rebuilt from the
/// method, the target bytes and the version, then the header section.
pub open spec fn spec_serialized(
    s: Seq<u8>,
    m: Method,
    t: Span,
    v: Version,
    hs: Seq<Header>,
) -> Seq<u8> {
    method_bytes(m) + seq![SP] + s.subrange(t.start as int, t.end as int) + seq![SP]
        + version_bytes(v) + seq![CR, LF] + spec_serialize_headers(s, hs)
}

/// Appends the bytes of `buf` under `sp` to `out`.
fn push_span(out: &mut Vec<u8>, buf: &[u8], sp: Span)
    requires
        sp.start <= sp.end <= buf@.len(),
    ensures
        final(out)@ == old(out)@ + buf@.subrange(sp.start as int, sp.end as int),
{
    let mut i: usize = sp.start;
    while i < sp.end
        invariant
            sp.start <= i <= sp.end,
            sp.end <= buf@.len(),
            out@ == old(out)@ + buf@.subrange(sp.start as int, i as int),
        decreases sp.end - i,
    {
        let b: u8 = *slice_index_get(buf, i);
        out.push(b);
        i += 1;
        proof {
            assert(out@ =~= old(out)@ + buf@.subrange(sp.start as int, i as int));
        }
    }
    proof {
        assert(out@ =~= old(out)@ + buf@.subrange(sp.start as int, sp.end as int));
    }
}

impl H1Request {
    /// Every committed field is present and its ranges lie within the
    /// accumulated bytes; what a completed parse establishes.
    pub open spec fn parsed_wf(&self) -> bool {
        &&& self.spec_method() is Some
        &&& self.spec_version() is Some
        &&& self.spec_target() is Some
        &&& self.spec_headers() is Some
        &&& self.spec_target().unwrap().start <= self.spec_target().unwrap().end
            <= self.input().len()
        &&& (forall|k: int| 0 <= k < self.spec_headers().unwrap().len() ==> {
            &&& (#[trigger] self.spec_headers().unwrap()[k]).name.start
                <= self.spec_headers().unwrap()[k].name.end <= self.input().len()
            &&& self.spec_headers().unwrap()[k].value.start
                <= self.spec_headers().unwrap()[k].value.end <= self.input().len()
        })
    }

    /// Rebuilds the wire form of the parsed request: the request line
    /// from the committed method, target and version, then each header
    /// as `name ": " value CRLF`, then the blank line.
    pub fn serialized(&self) -> (r: Vec<u8>)
        requires
            self.parsed_wf(),
        ensures
            r@ == spec_serialized(
                self.input(),
                self.spec_method().unwrap(),
                self.spec_target().unwrap(),
                self.spec_version().unwrap(),
                self.spec_headers().unwrap(),
            ),
    {
        let mut out: Vec<u8> = Vec::new();
        let m: Method = match &self.method {
            Some(m) => *m,
            None => unreached(),
        };
        let t: Span = match &self.target {
            Some(t) => *t,
            None => unreached(),
        };
        let v: Version = match &self.version {
            Some(v) => *v,
            None => unreached(),
        };
        push_method_bytes(&mut out, m);
        out.push(SP);
        push_span(&mut out, self.data.as_slice(), t);
        out.push(SP);
        push_version_bytes(&mut out, v);
        out.push(CR);
        out.push(LF);
        let ghost s = self.input();
        let ghost line = spec_serialized(
            s,
            self.spec_method().unwrap(),
            self.spec_target().unwrap(),
            self.spec_version().unwrap(),
            self.spec_headers().unwrap(),
        );
        let ghost hs = self.spec_headers().unwrap();
        proof {
            assert(line =~= out@ + spec_serialize_headers(s, hs));
        }
        let hv: &Vec<Header> = match &self.headers {
            Some(hv) => hv,
            None => unreached(),
        };
        let n: usize = hv.len();
        proof {
            assert(hs.skip(0) =~= hs);
        }
        let mut i: usize = 0;
        while i < n
            invariant
                i <= n,
                n == hs.len(),
                hv@ == hs,
                hs == self.spec_headers().unwrap(),
                self.parsed_wf(),
                s == self.input(),
                line == out@ + spec_serialize_headers(s, hs.skip(i as int)),
                line == spec_serialized(
                    s,
                    self.spec_method().unwrap(),
                    self.spec_target().unwrap(),
                    self.spec_version().unwrap(),
                    self.spec_headers().unwrap(),
                ),
            decreases n - i,
        {
            let h: Header = *vstd::slice::slice_index_get(hv.as_slice(), i);
            proof {
                assert(h == self.spec_headers().unwrap()[i as int]);
                assert((self.spec_headers().unwrap()[i as int]).name.start
                    <= self.spec_headers().unwrap()[i as int].name.end <= s.len());
                assert((self.spec_headers().unwrap()[i as int]).value.start
                    <= self.spec_headers().unwrap()[i as int].value.end <= s.len());
            }
            let ghost before = out@;
            push_span(&mut out, self.data.as_slice(), h.name);
            out.push(COLON);
            out.push(SP);
            push_span(&mut out, self.data.as_slice(), h.value);
            out.push(CR);
            out.push(LF);
            proof {
                let tail = hs.skip(i as int);
                assert(tail[0] == hs[i as int]);
                assert(tail.drop_first() =~= hs.skip(i as int + 1));
                assert(out@ =~= before + (s.subrange(
                    tail[0].name.start as int,
                    tail[0].name.end as int,
                ) + seq![COLON, SP] + s.subrange(
                    tail[0].value.start as int,
                    tail[0].value.end as int,
                ) + seq![CR, LF]));
                assert(spec_serialize_headers(s, tail) == s.subrange(
                    tail[0].name.start as int,
                    tail[0].name.end as int,
                ) + seq![COLON, SP] + s.subrange(
                    tail[0].value.start as int,
                    tail[0].value.end as int,
                ) + seq![CR, LF] + spec_serialize_headers(s, tail.drop_first()));
                assert(line =~= out@ + spec_serialize_headers(s, hs.skip(i as int + 1)));
            }
            i += 1;
        }
        out.push(CR);
        out.push(LF);
        proof {
            assert(hs.skip(n as int) =~= Seq::<Header>::empty());
            assert(spec_serialize_headers(s, hs.skip(n as int)) == seq![CR, LF]);
            assert(out@ =~= line);
        }
        out
    }
}

} // verus!
