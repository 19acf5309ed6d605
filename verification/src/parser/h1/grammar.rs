//! The accepted request grammar, as a mathematical model.
//!
//! `spec_parse` maps an input byte sequence and a header-storage capacity to
//! the one outcome the parser owes its caller: a fully parsed request, the
//! judgement that the input is an incomplete prefix, or an error naming the
//! offending component.  The executable driver is specified against this
//! model, and the model itself carries the proofs that parsing is stable
//! under extension of the input once it has completed or failed.
//!
//! The grammar is the RFC 9112 subset
//!
//! ```text
//! request        = request-line *( header-field CRLF ) CRLF
//! request-line   = method SP request-target SP HTTP-version CRLF
//! header-field   = field-name ":" OWS field-value OWS
//! ```
//!
//! with strict `CRLF` line endings, a single `SP` on each side of the
//! request-target, and trailing `OWS` trimmed from header values.

use vstd::prelude::*;

use crate::parser::ParseError;
use crate::parser::h1::tokens::TokenClass;
use crate::parser::h1::tokens::is_field_vchar;
use crate::parser::h1::tokens::is_target_char;
use crate::parser::h1::tokens::is_tchar;
use crate::parser::h1::tokens::is_token_byte;
use crate::parser::h1::tokens::lemma_token_run_end_characterization;
use crate::parser::h1::tokens::lemma_token_run_end_props;
use crate::parser::h1::tokens::token_run_end;
use crate::parser::method::Method;
use crate::parser::method::method_bytes;
use crate::parser::version::Version;
use crate::parser::version::version_bytes;

verus! {

/// Space.
pub const SP: u8 = 0x20;

/// Horizontal tab.
pub const HTAB: u8 = 0x09;

/// Carriage return.
pub const CR: u8 = 0x0d;

/// Line feed.
pub const LF: u8 = 0x0a;

/// Colon, the name/value separator of a header field.
pub const COLON: u8 = 0x3a;

/// `x` is a prefix of `y`.
pub open spec fn is_prefix_of(x: Seq<u8>, y: Seq<u8>) -> bool {
    x.len() <= y.len() && forall|i: int| 0 <= i < x.len() ==> x[i] == #[trigger] y[i]
}

/// The literal `lit` occurs in `s` at position `pos`.
pub open spec fn bytes_at(s: Seq<u8>, pos: int, lit: Seq<u8>) -> bool {
    pos + lit.len() <= s.len() && forall|i: int| 0 <= i < lit.len() ==> s[pos + i] == #[trigger] lit[i]
}

/// Outcome of one phase of the request line: more input is needed, the
/// component is malformed, or a value was decoded and the parse position
/// moved.
pub enum Phase<T> {
    /// The input ended inside the component.
    More,
    /// The component is malformed.
    Bad(ParseError),
    /// The component was decoded; the position after it, and its value.
    Got(int, T),
}

/// One parsed header field: the byte ranges of its name and of its value
/// (trailing whitespace trimmed), half-open.
pub struct SpecHeader {
    /// Start of the field name.
    pub name_start: int,
    /// End of the field name (exclusive).
    pub name_end: int,
    /// Start of the field value.
    pub value_start: int,
    /// End of the field value (exclusive), after trimming trailing `OWS`.
    pub value_end: int,
}

/// Outcome of the header section.
pub enum HeadersPhase {
    /// The input ended inside the header section.
    More,
    /// A field is malformed, or capacity was exceeded.
    Bad(ParseError),
    /// The fields in wire order, and the position after the final `CRLF`.
    Got(Seq<SpecHeader>, int),
}

/// Outcome of a whole parse.
pub enum ReqOutcome {
    /// The input is a prefix: more bytes may complete it.
    Incomplete,
    /// The input is malformed.
    Failed(ParseError),
    /// The input begins with a complete request.
    Parsed(SpecRequest),
}

/// A fully parsed request: every range is a half-open byte range into the
/// input.
pub struct SpecRequest {
    /// The decoded method.
    pub method: Method,
    /// Start of the request-target.
    pub target_start: int,
    /// End of the request-target (exclusive).
    pub target_end: int,
    /// The decoded version.
    pub version: Version,
    /// The header fields in wire order.
    pub headers: Seq<SpecHeader>,
    /// Bytes consumed, including the final `CRLF`.
    pub consumed: int,
}

/// Method phase: the decoder inspects a full eight-byte window and matches
/// the masked literals in a fixed priority order.
pub open spec fn sp_method(s: Seq<u8>) -> Phase<Method> {
    if s.len() < 8 {
        Phase::More
    } else if bytes_at(s, 0, method_bytes(Method::Get)) {
        Phase::Got(3, Method::Get)
    } else if bytes_at(s, 0, method_bytes(Method::Put)) {
        Phase::Got(3, Method::Put)
    } else if bytes_at(s, 0, method_bytes(Method::Post)) {
        Phase::Got(4, Method::Post)
    } else if bytes_at(s, 0, method_bytes(Method::Head)) {
        Phase::Got(4, Method::Head)
    } else if bytes_at(s, 0, method_bytes(Method::Trace)) {
        Phase::Got(5, Method::Trace)
    } else if bytes_at(s, 0, method_bytes(Method::Delete)) {
        Phase::Got(6, Method::Delete)
    } else if bytes_at(s, 0, method_bytes(Method::Options)) {
        Phase::Got(7, Method::Options)
    } else if bytes_at(s, 0, method_bytes(Method::Connect)) {
        Phase::Got(7, Method::Connect)
    } else {
        Phase::Bad(ParseError::Method)
    }
}

/// A single required `SP`; any other byte is an error of kind `e`.
pub open spec fn sp_single_sp(s: Seq<u8>, pos: int, e: ParseError) -> Phase<()> {
    if pos >= s.len() {
        Phase::More
    } else if s[pos] == SP {
        Phase::Got(pos + 1, ())
    } else {
        Phase::Bad(e)
    }
}

/// Target phase: the longest run of target bytes, which must be non-empty
/// and followed by a single `SP`.  The returned position is past that `SP`;
/// the value is the target's byte range.
pub open spec fn sp_target(s: Seq<u8>, pos: int) -> Phase<(int, int)> {
    let e = token_run_end(TokenClass::Target, s, pos);
    if e >= s.len() {
        Phase::More
    } else if e == pos {
        Phase::Bad(ParseError::Target)
    } else if s[e] == SP {
        Phase::Got(e + 1, (pos, e))
    } else {
        Phase::Bad(ParseError::Target)
    }
}

/// Version phase: the decoder inspects a full eight-byte window and accepts
/// exactly the four literals, consuming eight or six bytes.
pub open spec fn sp_version(s: Seq<u8>, pos: int) -> Phase<Version> {
    if s.len() - pos < 8 {
        Phase::More
    } else if bytes_at(s, pos, version_bytes(Version::H1_1)) {
        Phase::Got(pos + 8, Version::H1_1)
    } else if bytes_at(s, pos, version_bytes(Version::H1_0)) {
        Phase::Got(pos + 8, Version::H1_0)
    } else if bytes_at(s, pos, version_bytes(Version::H2)) {
        Phase::Got(pos + 6, Version::H2)
    } else if bytes_at(s, pos, version_bytes(Version::H3)) {
        Phase::Got(pos + 6, Version::H3)
    } else {
        Phase::Bad(ParseError::Version)
    }
}

/// A required `CRLF`; any other two bytes are an error of kind `e`.
pub open spec fn sp_crlf(s: Seq<u8>, pos: int, e: ParseError) -> Phase<()> {
    if s.len() - pos < 2 {
        Phase::More
    } else if s[pos] == CR && s[pos + 1] == LF {
        Phase::Got(pos + 2, ())
    } else {
        Phase::Bad(e)
    }
}

/// First position at or after `pos` whose byte is not `SP` or `HTAB`, or
/// the length of `s`.
pub open spec fn ows_end(s: Seq<u8>, pos: int) -> int
    decreases s.len() - pos,
{
    if pos >= s.len() {
        s.len() as int
    } else if s[pos] == SP || s[pos] == HTAB {
        ows_end(s, pos + 1)
    } else {
        pos
    }
}

/// `end`, moved left past any trailing `SP` / `HTAB`, but never below
/// `start`.
pub open spec fn trim_ws_end(s: Seq<u8>, start: int, end: int) -> int
    decreases end - start,
{
    if end <= start {
        start
    } else if s[end - 1] == SP || s[end - 1] == HTAB {
        trim_ws_end(s, start, end - 1)
    } else {
        end
    }
}

/// Header section: either the terminating `CRLF`, or one field
/// `field-name ":" OWS field-value CRLF` followed by the rest of the
/// section.  `room` is how many more fields the caller's storage can take;
/// a well-formed field beyond it is a `Capacity` error.
pub open spec fn sp_headers(s: Seq<u8>, pos: int, room: nat) -> HeadersPhase
    decreases room,
{
    if pos >= s.len() {
        HeadersPhase::More
    } else if s[pos] == CR {
        if pos + 1 >= s.len() {
            HeadersPhase::More
        } else if s[pos + 1] == LF {
            HeadersPhase::Got(Seq::empty(), pos + 2)
        } else {
            HeadersPhase::Bad(ParseError::NewLine)
        }
    } else {
        let ne = token_run_end(TokenClass::HeaderName, s, pos);
        if ne >= s.len() {
            HeadersPhase::More
        } else if ne == pos {
            HeadersPhase::Bad(ParseError::HeaderName)
        } else if s[ne] != COLON {
            HeadersPhase::Bad(ParseError::HeaderName)
        } else {
            let vs = ows_end(s, ne + 1);
            if vs >= s.len() {
                HeadersPhase::More
            } else {
                let ve = token_run_end(TokenClass::HeaderValue, s, vs);
                if ve >= s.len() {
                    HeadersPhase::More
                } else if ve == vs {
                    HeadersPhase::Bad(ParseError::HeaderValue)
                } else if s[ve] != CR {
                    HeadersPhase::Bad(ParseError::NewLine)
                } else if ve + 1 >= s.len() {
                    HeadersPhase::More
                } else if s[ve + 1] != LF {
                    HeadersPhase::Bad(ParseError::NewLine)
                } else if room == 0 {
                    HeadersPhase::Bad(ParseError::Capacity)
                } else {
                    let h = SpecHeader {
                        name_start: pos,
                        name_end: ne,
                        value_start: vs,
                        value_end: trim_ws_end(s, vs, ve),
                    };
                    match sp_headers(s, ve + 2, (room - 1) as nat) {
                        HeadersPhase::More => HeadersPhase::More,
                        HeadersPhase::Bad(err) => HeadersPhase::Bad(err),
                        HeadersPhase::Got(hs, end) => HeadersPhase::Got(seq![h] + hs, end),
                    }
                }
            }
        }
    }
}

/// The whitespace skip never moves backwards nor past the end, and the
/// byte it stops on, if any, is not whitespace.
pub proof fn lemma_ows_end_bounds(s: Seq<u8>, pos: int)
    requires
        0 <= pos <= s.len(),
    ensures
        pos <= ows_end(s, pos) <= s.len(),
        ows_end(s, pos) < s.len() ==> s[ows_end(s, pos)] != SP && s[ows_end(s, pos)] != HTAB,
    decreases s.len() - pos,
{
    if pos >= s.len() {
    } else if s[pos] == SP || s[pos] == HTAB {
        lemma_ows_end_bounds(s, pos + 1);
    } else {
    }
}

/// Prepends already-parsed fields to the outcome of the rest of the
/// header section.
pub open spec fn hdr_prepend(pre: Seq<SpecHeader>, o: HeadersPhase) -> HeadersPhase {
    match o {
        HeadersPhase::More => HeadersPhase::More,
        HeadersPhase::Bad(e) => HeadersPhase::Bad(e),
        HeadersPhase::Got(hs, end) => HeadersPhase::Got(pre + hs, end),
    }
}

/// Fields prepended one at a time land in order: prepending `pre` and
/// then one field `h` is prepending `pre.push(h)`.
pub proof fn lemma_hdr_prepend_assoc(pre: Seq<SpecHeader>, h: SpecHeader, o: HeadersPhase)
    ensures
        hdr_prepend(pre, hdr_prepend(seq![h], o)) == hdr_prepend(pre.push(h), o),
{
    match o {
        HeadersPhase::More => {
        }
        HeadersPhase::Bad(e) => {
        }
        HeadersPhase::Got(hs, end) => {
            assert(pre + (seq![h] + hs) =~= pre.push(h) + hs);
        }
    }
}

/// Prepending nothing changes nothing.
pub proof fn lemma_hdr_prepend_empty(o: HeadersPhase)
    ensures
        hdr_prepend(Seq::empty(), o) == o,
{
    match o {
        HeadersPhase::More => {
        }
        HeadersPhase::Bad(e) => {
        }
        HeadersPhase::Got(hs, end) => {
            assert(Seq::empty() + hs =~= hs);
        }
    }
}

/// One unfolding of the header section at a position where a complete
/// well-formed field stands and room remains: the outcome is that field
/// prepended to the rest.
pub proof fn lemma_sp_headers_field_step(s: Seq<u8>, pos: int, room: nat)
    requires
        0 <= pos < s.len(),
        s[pos] != CR,
        ({
            let ne = token_run_end(TokenClass::HeaderName, s, pos);
            &&& ne < s.len()
            &&& ne != pos
            &&& s[ne] == COLON
            &&& ({
                let vs = ows_end(s, ne + 1);
                &&& vs < s.len()
                &&& ({
                    let ve = token_run_end(TokenClass::HeaderValue, s, vs);
                    &&& ve < s.len()
                    &&& ve != vs
                    &&& s[ve] == CR
                    &&& ve + 1 < s.len()
                    &&& s[ve + 1] == LF
                })
            })
        }),
        room > 0,
    ensures
        ({
            let ne = token_run_end(TokenClass::HeaderName, s, pos);
            let vs = ows_end(s, ne + 1);
            let ve = token_run_end(TokenClass::HeaderValue, s, vs);
            let h = SpecHeader {
                name_start: pos,
                name_end: ne,
                value_start: vs,
                value_end: trim_ws_end(s, vs, ve),
            };
            sp_headers(s, pos, room) == hdr_prepend(
                seq![h],
                sp_headers(s, ve + 2, (room - 1) as nat),
            )
        }),
{
    let ne = token_run_end(TokenClass::HeaderName, s, pos);
    let vs = ows_end(s, ne + 1);
    let ve = token_run_end(TokenClass::HeaderValue, s, vs);
    let h = SpecHeader {
        name_start: pos,
        name_end: ne,
        value_start: vs,
        value_end: trim_ws_end(s, vs, ve),
    };
    match sp_headers(s, ve + 2, (room - 1) as nat) {
        HeadersPhase::More => {
        }
        HeadersPhase::Bad(e) => {
        }
        HeadersPhase::Got(hs, end) => {
        }
    }
}

/// The whole request: request-line, then the header section.  `room` is
/// the capacity of the caller's header storage.
pub open spec fn spec_parse(s: Seq<u8>, room: nat) -> ReqOutcome {
    match sp_method(s) {
        Phase::More => ReqOutcome::Incomplete,
        Phase::Bad(e) => ReqOutcome::Failed(e),
        Phase::Got(p1, m) => match sp_single_sp(s, p1, ParseError::Method) {
            Phase::More => ReqOutcome::Incomplete,
            Phase::Bad(e) => ReqOutcome::Failed(e),
            Phase::Got(p2, _u) => match sp_target(s, p2) {
                Phase::More => ReqOutcome::Incomplete,
                Phase::Bad(e) => ReqOutcome::Failed(e),
                Phase::Got(p3, t) => match sp_version(s, p3) {
                    Phase::More => ReqOutcome::Incomplete,
                    Phase::Bad(e) => ReqOutcome::Failed(e),
                    Phase::Got(p4, v) => match sp_crlf(s, p4, ParseError::NewLine) {
                        Phase::More => ReqOutcome::Incomplete,
                        Phase::Bad(e) => ReqOutcome::Failed(e),
                        Phase::Got(p5, _w) => match sp_headers(s, p5, room) {
                            HeadersPhase::More => ReqOutcome::Incomplete,
                            HeadersPhase::Bad(e) => ReqOutcome::Failed(e),
                            HeadersPhase::Got(hs, end) => ReqOutcome::Parsed(SpecRequest {
                                method: m,
                                target_start: t.0,
                                target_end: t.1,
                                version: v,
                                headers: hs,
                                consumed: end,
                            }),
                        },
                    },
                },
            },
        },
    }
}


/// A token run that stopped inside `x` stops at the same place in any
/// extension of `x`.
pub proof fn lemma_run_end_stable(c: TokenClass, x: Seq<u8>, y: Seq<u8>, pos: int)
    requires
        is_prefix_of(x, y),
        0 <= pos <= x.len(),
        token_run_end(c, x, pos) < x.len(),
    ensures
        token_run_end(c, y, pos) == token_run_end(c, x, pos),
    decreases x.len() - pos,
{
    lemma_token_run_end_props(c, x, pos);
    if pos >= x.len() {
    } else if !is_token_byte(c, x[pos]) {
        assert(y[pos] == x[pos]);
    } else {
        assert(y[pos] == x[pos]);
        lemma_run_end_stable(c, x, y, pos + 1);
    }
}

/// A whitespace skip that stopped inside `x` stops at the same place in
/// any extension of `x`.
pub proof fn lemma_ows_end_stable(x: Seq<u8>, y: Seq<u8>, pos: int)
    requires
        is_prefix_of(x, y),
        0 <= pos <= x.len(),
        ows_end(x, pos) < x.len(),
    ensures
        ows_end(y, pos) == ows_end(x, pos),
    decreases x.len() - pos,
{
    lemma_ows_end_bounds(x, pos);
    if pos >= x.len() {
    } else if x[pos] == SP || x[pos] == HTAB {
        assert(y[pos] == x[pos]);
        lemma_ows_end_stable(x, y, pos + 1);
    } else {
        assert(y[pos] == x[pos]);
    }
}

/// Trimming looks only at bytes below `end`, so it is the same in any
/// extension of `x`.
pub proof fn lemma_trim_ws_end_stable(x: Seq<u8>, y: Seq<u8>, start: int, end: int)
    requires
        is_prefix_of(x, y),
        0 <= start,
        end <= x.len(),
    ensures
        trim_ws_end(y, start, end) == trim_ws_end(x, start, end),
    decreases end - start,
{
    if end <= start {
    } else {
        assert(y[end - 1] == x[end - 1]);
        lemma_trim_ws_end_stable(x, y, start, end - 1);
    }
}

/// A literal that fits inside `x` occurs there exactly when it occurs in
/// any extension of `x`.
pub proof fn lemma_bytes_at_stable(x: Seq<u8>, y: Seq<u8>, pos: int, lit: Seq<u8>)
    requires
        is_prefix_of(x, y),
        0 <= pos,
        pos + lit.len() <= x.len(),
    ensures
        bytes_at(y, pos, lit) == bytes_at(x, pos, lit),
{
    if bytes_at(x, pos, lit) {
        assert forall|i: int| 0 <= i < lit.len() implies y[pos + i] == #[trigger] lit[i] by {
            assert(x[pos + i] == lit[i]);
            assert(y[pos + i] == x[pos + i]);
        }
    }
    if bytes_at(y, pos, lit) {
        assert forall|i: int| 0 <= i < lit.len() implies x[pos + i] == #[trigger] lit[i] by {
            assert(y[pos + i] == lit[i]);
            assert(y[pos + i] == x[pos + i]);
        }
    }
}

/// A method decision (decoded or malformed) made on `x` stands in any
/// extension of `x`; only `More` can change.
pub proof fn lemma_sp_method_stable(x: Seq<u8>, y: Seq<u8>)
    requires
        is_prefix_of(x, y),
        !(sp_method(x) is More),
    ensures
        sp_method(y) == sp_method(x),
{
    assert(x.len() >= 8);
    lemma_bytes_at_stable(x, y, 0, method_bytes(Method::Get));
    lemma_bytes_at_stable(x, y, 0, method_bytes(Method::Put));
    lemma_bytes_at_stable(x, y, 0, method_bytes(Method::Post));
    lemma_bytes_at_stable(x, y, 0, method_bytes(Method::Head));
    lemma_bytes_at_stable(x, y, 0, method_bytes(Method::Trace));
    lemma_bytes_at_stable(x, y, 0, method_bytes(Method::Delete));
    lemma_bytes_at_stable(x, y, 0, method_bytes(Method::Options));
    lemma_bytes_at_stable(x, y, 0, method_bytes(Method::Connect));
}

/// A version decision made on `x` stands in any extension of `x`.
pub proof fn lemma_sp_version_stable(x: Seq<u8>, y: Seq<u8>, pos: int)
    requires
        is_prefix_of(x, y),
        0 <= pos,
        !(sp_version(x, pos) is More),
    ensures
        sp_version(y, pos) == sp_version(x, pos),
{
    assert(x.len() - pos >= 8);
    lemma_bytes_at_stable(x, y, pos, version_bytes(Version::H1_1));
    lemma_bytes_at_stable(x, y, pos, version_bytes(Version::H1_0));
    lemma_bytes_at_stable(x, y, pos, version_bytes(Version::H2));
    lemma_bytes_at_stable(x, y, pos, version_bytes(Version::H3));
}

/// A header-section decision (parsed fields or an error) made on `x`
/// stands, fields and all, in any extension of `x`.
pub proof fn lemma_sp_headers_stable(x: Seq<u8>, y: Seq<u8>, pos: int, room: nat)
    requires
        is_prefix_of(x, y),
        0 <= pos <= x.len(),
        !(sp_headers(x, pos, room) is More),
    ensures
        sp_headers(y, pos, room) == sp_headers(x, pos, room),
    decreases room,
{
    if pos >= x.len() {
    } else if x[pos] == CR {
        assert(y[pos] == x[pos]);
        if pos + 1 >= x.len() {
        } else {
            assert(y[pos + 1] == x[pos + 1]);
        }
    } else {
        assert(y[pos] == x[pos]);
        let ne = token_run_end(TokenClass::HeaderName, x, pos);
        lemma_token_run_end_props(TokenClass::HeaderName, x, pos);
        if ne >= x.len() {
        } else {
            lemma_run_end_stable(TokenClass::HeaderName, x, y, pos);
            if ne == pos {
            } else if x[ne] != COLON {
                assert(y[ne] == x[ne]);
            } else {
                assert(y[ne] == x[ne]);
                let vs = ows_end(x, ne + 1);
                lemma_ows_end_bounds(x, ne + 1);
                if vs >= x.len() {
                } else {
                    lemma_ows_end_stable(x, y, ne + 1);
                    let ve = token_run_end(TokenClass::HeaderValue, x, vs);
                    lemma_token_run_end_props(TokenClass::HeaderValue, x, vs);
                    if ve >= x.len() {
                    } else {
                        lemma_run_end_stable(TokenClass::HeaderValue, x, y, vs);
                        if ve == vs {
                        } else if x[ve] != CR {
                            assert(y[ve] == x[ve]);
                        } else {
                            assert(y[ve] == x[ve]);
                            if ve + 1 >= x.len() {
                            } else {
                                assert(y[ve + 1] == x[ve + 1]);
                                if x[ve + 1] != LF {
                                } else if room == 0 {
                                } else {
                                    lemma_trim_ws_end_stable(x, y, vs, ve);
                                    lemma_sp_headers_stable(x, y, ve + 2, (room - 1) as nat);
                                }
                            }
                        }
                    }
                }
            }
        }
    }
}

/// Once a parse has completed or failed on an input, every extension of
/// that input parses to the very same outcome: completion and errors are
/// stable under receiving more bytes, and only an incomplete parse is
/// resolved by them.
pub proof fn lemma_spec_parse_prefix_stable(x: Seq<u8>, y: Seq<u8>, room: nat)
    requires
        is_prefix_of(x, y),
        !(spec_parse(x, room) is Incomplete),
    ensures
        spec_parse(y, room) == spec_parse(x, room),
{
    lemma_sp_method_stable(x, y);
    match sp_method(x) {
        Phase::More => {
        }
        Phase::Bad(e) => {
        }
        Phase::Got(p1, m) => {
            assert(0 <= p1 <= 7);
            match sp_single_sp(x, p1, ParseError::Method) {
                Phase::More => {
                }
                Phase::Bad(e) => {
                    assert(y[p1] == x[p1]);
                }
                Phase::Got(p2, _u) => {
                    assert(y[p1] == x[p1]);
                    match sp_target(x, p2) {
                        Phase::More => {
                        }
                        Phase::Bad(e) => {
                            lemma_token_run_end_props(TokenClass::Target, x, p2);
                            let te = token_run_end(TokenClass::Target, x, p2);
                            if te < x.len() {
                                lemma_run_end_stable(TokenClass::Target, x, y, p2);
                                assert(y[te] == x[te]);
                            }
                        }
                        Phase::Got(p3, t) => {
                            lemma_token_run_end_props(TokenClass::Target, x, p2);
                            let te = token_run_end(TokenClass::Target, x, p2);
                            lemma_run_end_stable(TokenClass::Target, x, y, p2);
                            assert(y[te] == x[te]);
                            match sp_version(x, p3) {
                                Phase::More => {
                                }
                                Phase::Bad(e) => {
                                    lemma_sp_version_stable(x, y, p3);
                                }
                                Phase::Got(p4, v) => {
                                    lemma_sp_version_stable(x, y, p3);
                                    match sp_crlf(x, p4, ParseError::NewLine) {
                                        Phase::More => {
                                        }
                                        Phase::Bad(e) => {
                                            assert(y[p4] == x[p4] && y[p4 + 1] == x[p4 + 1]);
                                        }
                                        Phase::Got(p5, _w) => {
                                            assert(y[p4] == x[p4] && y[p4 + 1] == x[p4 + 1]);
                                            lemma_sp_headers_stable(x, y, p5, room);
                                        }
                                    }
                                }
                            }
                        }
                    }
                }
            }
        }
    }
}


/// A single differing byte refutes an occurrence of a literal.
pub proof fn lemma_bytes_at_differs(s: Seq<u8>, pos: int, lit: Seq<u8>, i: int)
    requires
        0 <= i < lit.len(),
        s[pos + i] != lit[i],
    ensures
        !bytes_at(s, pos, lit),
{
    if bytes_at(s, pos, lit) {
        assert(s[pos + i] == lit[i]);
    }
}

/// Trimming never leaves the range, and keeps at least the first byte
/// when that byte is not whitespace.
pub proof fn lemma_trim_ws_end_bounds(s: Seq<u8>, start: int, end: int)
    requires
        0 <= start <= end <= s.len(),
    ensures
        start <= trim_ws_end(s, start, end) <= end,
        start < end && s[start] != SP && s[start] != HTAB ==> start < trim_ws_end(s, start, end),
    decreases end - start,
{
    if end <= start {
    } else if s[end - 1] == SP || s[end - 1] == HTAB {
        lemma_trim_ws_end_bounds(s, start, end - 1);
    } else {
    }
}

/// A parsed header field is well formed over the input `s`: its ranges
/// are ordered, lie within `[lo, hi)`, its name is a non-empty run of
/// `tchar` bytes and its value a non-empty run of value bytes.
pub open spec fn header_wf(s: Seq<u8>, h: SpecHeader, lo: int, hi: int) -> bool {
    &&& lo <= h.name_start < h.name_end < h.value_start < h.value_end <= hi
    &&& (forall|i: int| h.name_start <= i < h.name_end ==> is_tchar(#[trigger] s[i]))
    &&& (forall|i: int| h.value_start <= i < h.value_end ==> is_field_vchar(#[trigger] s[i]))
}

/// A parsed header section lies within its input: its end is past `pos`
/// and at most the input length, and every field is well formed and lies
/// before the final `CRLF`.
pub proof fn lemma_sp_headers_bounds(s: Seq<u8>, pos: int, room: nat)
    requires
        0 <= pos <= s.len(),
        sp_headers(s, pos, room) is Got,
    ensures
        (match sp_headers(s, pos, room) {
            HeadersPhase::Got(hs, end) => pos + 2 <= end <= s.len() && (forall|k: int|
                0 <= k < hs.len() ==> header_wf(s, #[trigger] hs[k], pos, end - 2)),
            _ => true,
        }),
    decreases room,
{
    if pos >= s.len() {
    } else if s[pos] == CR {
    } else {
        let ne = token_run_end(TokenClass::HeaderName, s, pos);
        lemma_token_run_end_props(TokenClass::HeaderName, s, pos);
        if ne < s.len() && ne != pos && s[ne] == COLON {
            let vs = ows_end(s, ne + 1);
            lemma_ows_end_bounds(s, ne + 1);
            if vs < s.len() {
                let ve = token_run_end(TokenClass::HeaderValue, s, vs);
                lemma_token_run_end_props(TokenClass::HeaderValue, s, vs);
                if ve < s.len() && ve != vs && s[ve] == CR && ve + 1 < s.len() && s[ve + 1] == LF
                    && room > 0 {
                    lemma_trim_ws_end_bounds(s, vs, ve);
                    lemma_sp_headers_bounds(s, ve + 2, (room - 1) as nat);
                    match sp_headers(s, ve + 2, (room - 1) as nat) {
                        HeadersPhase::Got(rest, end) => {
                            let h = SpecHeader {
                                name_start: pos,
                                name_end: ne,
                                value_start: vs,
                                value_end: trim_ws_end(s, vs, ve),
                            };
                            assert(header_wf(s, h, pos, end - 2));
                            assert forall|k: int| 0 <= k < (seq![h] + rest).len()
                                implies header_wf(s, #[trigger] (seq![h] + rest)[k], pos, end - 2) by {
                                if k == 0 {
                                    assert((seq![h] + rest)[0] == h);
                                } else {
                                    assert((seq![h] + rest)[k] == rest[k - 1]);
                                    assert(header_wf(s, rest[k - 1], ve + 2, end - 2));
                                }
                            }
                        }
                        _ => {
                        }
                    }
                }
            }
        }
    }
}

/// On a complete parse every returned range lies inside the consumed
/// prefix of the input: the target is a non-empty range of target bytes
/// after the method, every header field is well formed, and everything
/// ends before the final `CRLF` at `consumed`.
pub proof fn lemma_parse_complete_bounds(s: Seq<u8>, room: nat)
    requires
        spec_parse(s, room) is Parsed,
    ensures
        (match spec_parse(s, room) {
            ReqOutcome::Parsed(pr) => {
                &&& 0 < pr.target_start < pr.target_end < pr.consumed <= s.len()
                &&& (forall|i: int| pr.target_start <= i < pr.target_end ==> is_target_char(
                    #[trigger] s[i],
                ))
                &&& (forall|k: int| 0 <= k < pr.headers.len() ==> header_wf(
                    s,
                    #[trigger] pr.headers[k],
                    pr.target_end,
                    pr.consumed - 2,
                ))
            },
            _ => true,
        }),
{
    match sp_method(s) {
        Phase::More => {
        }
        Phase::Bad(e) => {
        }
        Phase::Got(p1, m) => {
            assert(0 <= p1 <= 7);
            match sp_single_sp(s, p1, ParseError::Method) {
                Phase::More => {
                }
                Phase::Bad(e) => {
                }
                Phase::Got(p2, _u) => {
                    lemma_token_run_end_props(TokenClass::Target, s, p2);
                    match sp_target(s, p2) {
                        Phase::More => {
                        }
                        Phase::Bad(e) => {
                        }
                        Phase::Got(p3, t) => {
                            match sp_version(s, p3) {
                                Phase::More => {
                                }
                                Phase::Bad(e) => {
                                }
                                Phase::Got(p4, v) => {
                                    match sp_crlf(s, p4, ParseError::NewLine) {
                                        Phase::More => {
                                        }
                                        Phase::Bad(e) => {
                                        }
                                        Phase::Got(p5, _w) => {
                                            lemma_sp_headers_bounds(s, p5, room);
                                            match sp_headers(s, p5, room) {
                                                HeadersPhase::Got(hs, end) => {
                                                    assert forall|k: int| 0 <= k < hs.len()
                                                        implies header_wf(
                                                        s,
                                                        #[trigger] hs[k],
                                                        t.1,
                                                        end - 2,
                                                    ) by {
                                                        assert(header_wf(s, hs[k], p5, end - 2));
                                                    }
                                                }
                                                _ => {
                                                }
                                            }
                                        }
                                    }
                                }
                            }
                        }
                    }
                }
            }
        }
    }
}

/// Round trip of the request line: for every accepted method, every
/// non-empty target made of target bytes, and every accepted version, the
/// wire form `method SP target SP version CRLF CRLF` parses completely,
/// to exactly that method, that target and that version, with no headers,
/// consuming the whole input.
#[verifier::rlimit(100)]
#[verifier::spinoff_prover]
pub proof fn lemma_request_line_round_trip(m: Method, t: Seq<u8>, v: Version, room: nat)
    ensures
        t.len() > 0 && (forall|j: int| 0 <= j < t.len() ==> is_target_char(#[trigger] t[j]))
            ==> ({
            let s = method_bytes(m) + seq![SP] + t + seq![SP] + version_bytes(v) + seq![CR, LF]
                + seq![CR, LF];
            spec_parse(s, room) == ReqOutcome::Parsed(
                (SpecRequest {
                    method: m,
                    target_start: method_bytes(m).len() + 1int,
                    target_end: method_bytes(m).len() + 1int + t.len(),
                    version: v,
                    headers: Seq::empty(),
                    consumed: s.len() as int,
                }),
            )
        }),
{
    if t.len() > 0 && (forall|j: int| 0 <= j < t.len() ==> is_target_char(#[trigger] t[j])) {
        let mb = method_bytes(m);
        let vb = version_bytes(v);
        let s = mb + seq![SP] + t + seq![SP] + vb + seq![CR, LF] + seq![CR, LF];
        let n0 = mb.len() as int;
        let p2 = n0 + 1;
        let p3 = p2 + t.len() + 1;
        let n1 = vb.len() as int;
        let p4 = p3 + n1;
        let p5 = p4 + 2;
        assert(s.len() == n0 + 1 + t.len() + 1 + n1 + 4);
        assert forall|i: int| 0 <= i < n0 implies s[i] == mb[i] by {
        }
        assert(s[n0] == SP);
        assert forall|j: int| 0 <= j < t.len() implies s[p2 + j] == t[j] by {
        }
        assert(s[p2 + t.len()] == SP);
        assert forall|k: int| 0 <= k < n1 implies s[p3 + k] == vb[k] by {
        }
        assert(s[p4] == CR);
        assert(s[p4 + 1] == LF);
        assert(s[p5] == CR);
        assert(s[p5 + 1] == LF);
        // The method literal occurs at the start, and no literal that the
        // decoder tries earlier does.
        assert(bytes_at(s, 0, mb));
        match m {
        Method::Get => {
        
        }
        Method::Put => {
            assert(s[0] == mb[0]);
            lemma_bytes_at_differs(s, 0, method_bytes(Method::Get), 0);
        }
        Method::Post => {
            assert(s[0] == mb[0]);
            lemma_bytes_at_differs(s, 0, method_bytes(Method::Get), 0);
            assert(s[1] == mb[1]);
            lemma_bytes_at_differs(s, 0, method_bytes(Method::Put), 1);
        }
        Method::Head => {
            assert(s[0] == mb[0]);
            lemma_bytes_at_differs(s, 0, method_bytes(Method::Get), 0);
            assert(s[0] == mb[0]);
            lemma_bytes_at_differs(s, 0, method_bytes(Method::Put), 0);
            assert(s[0] == mb[0]);
            lemma_bytes_at_differs(s, 0, method_bytes(Method::Post), 0);
        }
        Method::Trace => {
            assert(s[0] == mb[0]);
            lemma_bytes_at_differs(s, 0, method_bytes(Method::Get), 0);
            assert(s[0] == mb[0]);
            lemma_bytes_at_differs(s, 0, method_bytes(Method::Put), 0);
            assert(s[0] == mb[0]);
            lemma_bytes_at_differs(s, 0, method_bytes(Method::Post), 0);
            assert(s[0] == mb[0]);
            lemma_bytes_at_differs(s, 0, method_bytes(Method::Head), 0);
        }
        Method::Delete => {
            assert(s[0] == mb[0]);
            lemma_bytes_at_differs(s, 0, method_bytes(Method::Get), 0);
            assert(s[0] == mb[0]);
            lemma_bytes_at_differs(s, 0, method_bytes(Method::Put), 0);
            assert(s[0] == mb[0]);
            lemma_bytes_at_differs(s, 0, method_bytes(Method::Post), 0);
            assert(s[0] == mb[0]);
            lemma_bytes_at_differs(s, 0, method_bytes(Method::Head), 0);
            assert(s[0] == mb[0]);
            lemma_bytes_at_differs(s, 0, method_bytes(Method::Trace), 0);
        }
        Method::Options => {
            assert(s[0] == mb[0]);
            lemma_bytes_at_differs(s, 0, method_bytes(Method::Get), 0);
            assert(s[0] == mb[0]);
            lemma_bytes_at_differs(s, 0, method_bytes(Method::Put), 0);
            assert(s[0] == mb[0]);
            lemma_bytes_at_differs(s, 0, method_bytes(Method::Post), 0);
            assert(s[0] == mb[0]);
            lemma_bytes_at_differs(s, 0, method_bytes(Method::Head), 0);
            assert(s[0] == mb[0]);
            lemma_bytes_at_differs(s, 0, method_bytes(Method::Trace), 0);
            assert(s[0] == mb[0]);
            lemma_bytes_at_differs(s, 0, method_bytes(Method::Delete), 0);
        }
        Method::Connect => {
            assert(s[0] == mb[0]);
            lemma_bytes_at_differs(s, 0, method_bytes(Method::Get), 0);
            assert(s[0] == mb[0]);
            lemma_bytes_at_differs(s, 0, method_bytes(Method::Put), 0);
            assert(s[0] == mb[0]);
            lemma_bytes_at_differs(s, 0, method_bytes(Method::Post), 0);
            assert(s[0] == mb[0]);
            lemma_bytes_at_differs(s, 0, method_bytes(Method::Head), 0);
            assert(s[0] == mb[0]);
            lemma_bytes_at_differs(s, 0, method_bytes(Method::Trace), 0);
            assert(s[0] == mb[0]);
            lemma_bytes_at_differs(s, 0, method_bytes(Method::Delete), 0);
            assert(s[0] == mb[0]);
            lemma_bytes_at_differs(s, 0, method_bytes(Method::Options), 0);
        }
        }
        assert(sp_method(s) == Phase::<Method>::Got(n0, m));
        // A single SP separates method and target.
        assert(sp_single_sp(s, n0, ParseError::Method) == Phase::<()>::Got(p2, ()));
        // The target run is exactly t, stopped by the SP after it.
        assert forall|i: int| p2 <= i < p2 + t.len() implies is_token_byte(
            TokenClass::Target,
            #[trigger] s[i],
        ) by {
            assert(s[i] == t[i - p2]);
        }
        lemma_token_run_end_characterization(TokenClass::Target, s, p2, p2 + t.len());
        assert(sp_target(s, p2) == Phase::<(int, int)>::Got(p3, (p2, p2 + t.len())));
        // The version literal occurs at p3, and no literal that the
        // decoder tries earlier does.
        assert(bytes_at(s, p3, vb));
        match v {
        Version::H1_1 => {
        
        }
        Version::H1_0 => {
            assert(s[p3 + 7] == vb[7]);
            lemma_bytes_at_differs(s, p3, version_bytes(Version::H1_1), 7);
        }
        Version::H2 => {
            assert(s[p3 + 5] == vb[5]);
            lemma_bytes_at_differs(s, p3, version_bytes(Version::H1_1), 5);
            assert(s[p3 + 5] == vb[5]);
            lemma_bytes_at_differs(s, p3, version_bytes(Version::H1_0), 5);
        }
        Version::H3 => {
            assert(s[p3 + 5] == vb[5]);
            lemma_bytes_at_differs(s, p3, version_bytes(Version::H1_1), 5);
            assert(s[p3 + 5] == vb[5]);
            lemma_bytes_at_differs(s, p3, version_bytes(Version::H1_0), 5);
            assert(s[p3 + 5] == vb[5]);
            lemma_bytes_at_differs(s, p3, version_bytes(Version::H2), 5);
        }
        }
        assert(sp_version(s, p3) == Phase::<Version>::Got(p4, v));
        assert(sp_crlf(s, p4, ParseError::NewLine) == Phase::<()>::Got(p5, ()));
        assert(sp_headers(s, p5, room) == HeadersPhase::Got(Seq::empty(), p5 + 2));
        assert(p5 + 2 == s.len());
    }
}

} // verus!
