use rask::first::buffer::Buffer;
use rask::parser::h1::response::Response;
use rask::parser::h1::{
    discard_required_newline, discard_required_whitespace, discard_whitespace,
    get_non_whitespace_pos, take_after_newline,
};
use rask::parser::raw_request::RawRequest;
use rask::parser::status::Status as StatusCode;
use rask::parser::{ParseError, Status, Version};

#[test]
fn discard_whitespace_skips_spaces_and_tabs() {
    let buf: &[u8] = b"  \t x";
    assert_eq!(Some(4), discard_whitespace(buf, 0));
    assert_eq!(Some(4), discard_whitespace(buf, 3));
    assert_eq!(Some(4), discard_whitespace(buf, 4));
    assert_eq!(None, discard_whitespace(b"   ", 0));
    assert_eq!(None, discard_whitespace(b"", 0));
}

#[test]
fn discard_required_whitespace_needs_at_least_one() {
    let buf: &[u8] = b" x";
    assert_eq!(
        Ok(Status::Complete(1)),
        discard_required_whitespace(buf, 0, ParseError::Method)
    );
    assert_eq!(
        Err(ParseError::Method),
        discard_required_whitespace(b"x ", 0, ParseError::Method)
    );
    assert_eq!(
        Ok(Status::Partial),
        discard_required_whitespace(b"  ", 0, ParseError::Method)
    );
}

#[test]
fn discard_required_newline_consumes_crlf() {
    let buf: &[u8] = b"Hello\r\nWorld!";
    assert_eq!(
        Ok(Status::Complete(7)),
        discard_required_newline(buf, 5, ParseError::NewLine)
    );
    assert_eq!(
        Err(ParseError::NewLine),
        discard_required_newline(buf, 0, ParseError::NewLine)
    );
    assert_eq!(
        Ok(Status::Partial),
        discard_required_newline(b"x\r", 1, ParseError::NewLine)
    );
}

#[test]
fn get_non_whitespace_pos_stops_at_crlf_or_past_other_bytes() {
    // The CR of a CRLF is reported at its own position.
    assert_eq!(Some(2), get_non_whitespace_pos(b"  \r\nx", 0));
    // Any other non-whitespace byte is reported one past itself.
    assert_eq!(Some(3), get_non_whitespace_pos(b"  x", 0));
    // A CR not followed by LF counts as an ordinary byte.
    assert_eq!(Some(3), get_non_whitespace_pos(b"  \rx", 0));
    assert_eq!(None, get_non_whitespace_pos(b" \t ", 0));
}

#[test]
fn take_after_newline_discards_through_the_cr() {
    let mut buf = RawRequest::new(b"abc\r\ndef");
    assert_eq!(Ok(()), take_after_newline(&mut buf));
    // The buffer now starts at the LF.
    assert_eq!(Some(b'\n'), buf.peek());
    assert_eq!(4, buf.len());
    let mut missing = RawRequest::new(b"abcdef");
    assert_eq!(Err(ParseError::NewLine), take_after_newline(&mut missing));
    assert!(missing.is_empty());
}

#[test]
fn buffer_write_and_mark_read_track_readable_bytes() {
    let mut buf = Buffer::new(4);
    assert_eq!(0, buf.remaining());
    assert_eq!(4, buf.remaining_mut());
    assert_eq!(0, buf.write_pos());
    assert_eq!(6, buf.write(b"abcdef"));
    assert_eq!(6, buf.remaining());
    assert_eq!(6, buf.write_pos());
    buf.mark_read(2);
    assert_eq!(4, buf.remaining());
    buf.mark_read(100);
    assert_eq!(0, buf.remaining());
    assert_eq!(0, buf.write_pos());
}

#[test]
fn buffer_reserve_and_mark_written_clamp_to_storage() {
    let mut buf = Buffer::new(2);
    buf.reserve(8);
    assert!(buf.remaining_mut() >= 10);
    let cap = buf.remaining_mut();
    buf.mark_written(3);
    assert_eq!(3, buf.remaining());
    buf.mark_written(cap);
    assert_eq!(cap, buf.remaining());
    assert_eq!(0, buf.remaining_mut());
}

#[test]
fn status_codes_match_rfc_9110() {
    assert_eq!(100, StatusCode::Continue.code());
    assert_eq!(200, StatusCode::Okay.code());
    assert_eq!(204, StatusCode::NoContent.code());
    assert_eq!(307, StatusCode::TemporaryRedirect.code());
    assert_eq!(400, StatusCode::BadRequest.code());
    assert_eq!(404, StatusCode::NotFound.code());
    assert_eq!(505, StatusCode::HttpVersionNotSupported.code());
}

#[test]
fn response_serializes_a_no_content_status_line() {
    let resp = Response::new_with_status_line(Version::H1_1, StatusCode::NoContent);
    assert_eq!(
        "HTTP/1.1 204\r\nServer: rask/0.0.1\r\nConnection: keep-alive\r\n\r\n",
        resp.get_serialized()
    );
}
