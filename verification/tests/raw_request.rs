use rask::parser::raw_request::{Error, RawRequest};

#[test]
fn raw_request_constructs_with_len_and_pos() {
    let req = RawRequest::new(b"GET / HTTP/1.1");
    assert_eq!(0, req.pos());
    assert_eq!(14, req.len());
}

#[test]
fn raw_request_next_iterates() {
    let mut req = RawRequest::new(b"GET / HTTP/1.1");
    assert_eq!(Some(b'G'), req.next());
    assert_eq!(Some(b'E'), req.next());
    assert_eq!(Some(b'T'), req.next());
    assert_eq!(3, req.pos());
}

#[test]
fn raw_request_slice_consumes_iterated_elements() {
    let mut req = RawRequest::new(b"GET / HTTP/1.1");
    req.next();
    req.next();
    req.next();
    assert_eq!(b"GET", req.slice());
    assert_eq!(0, req.pos());
    assert_eq!(11, req.len());
}

#[test]
fn raw_request_slice_skip_consumes_iterated_elements_and_skips() {
    let mut req = RawRequest::new(b"GET / HTTP/1.1");
    req.next();
    req.next();
    req.next();
    req.next();
    assert_eq!(Ok(b"GET" as &[u8]), req.slice_skip(1));
    assert_eq!(0, req.pos());
    assert_eq!(10, req.len());
}

#[test]
fn raw_request_slice_skip_returns_empty_slice_when_skip_equals_pos() {
    let mut req = RawRequest::new(b"GET / HTTP/1.1");
    req.next();
    req.next();
    req.next();
    req.next();
    assert_eq!(4, req.pos());
    assert_eq!(Ok(b"" as &[u8]), req.slice_skip(4));
    assert_eq!(0, req.pos());
    assert_eq!(10, req.len());
}

#[test]
fn raw_requset_slice_skip_returns_err_when_skip_greater_than_pos() {
    let mut req = RawRequest::new(b"GET / HTTP/1.1");
    assert_eq!(Err(Error::Skip), req.slice_skip(1));
}

#[test]
fn raw_request_slice_leaves_empty_slice_when_all_elements_consumed() {
    let mut req = RawRequest::new(b"GET");
    req.next();
    req.next();
    req.next();
    assert_eq!(b"GET", req.slice());
    assert_eq!(0, req.pos());
    assert_eq!(0, req.len());
    assert_eq!(None, req.next());
}

#[test]
fn raw_request_peek_does_not_consume() {
    let mut req = RawRequest::new(b"AB");
    assert_eq!(Some(b'A'), req.peek());
    assert_eq!(Some(b'A'), req.peek());
    assert_eq!(Some(b'A'), req.next());
    assert_eq!(Some(b'B'), req.peek());
    assert_eq!(1, req.pos());
}

#[test]
fn raw_request_current_reports_last_read_byte() {
    let mut req = RawRequest::new(b"AB");
    assert_eq!(Some(b'A'), req.current());
    req.next();
    assert_eq!(Some(b'A'), req.current());
    req.next();
    assert_eq!(Some(b'B'), req.current());
    let empty = RawRequest::new(b"");
    assert_eq!(None, empty.current());
}

#[test]
fn raw_request_advance_clamps_to_length() {
    let mut req = RawRequest::new(b"ABCDE");
    req.advance(3);
    assert_eq!(3, req.pos());
    req.advance(100);
    assert_eq!(5, req.pos());
    assert!(req.is_empty());
}

#[test]
fn raw_request_to_vec_copies_all_bytes() {
    let mut req = RawRequest::new(b"XYZ");
    req.next();
    assert_eq!(b"XYZ".to_vec(), req.to_vec());
}

#[test]
fn raw_request_take_until_stops_at_predicate() {
    let mut req = RawRequest::new(b"GET / HTTP/1.1");
    let taken = req.take_until(|b| b == b' ');
    assert_eq!(Some(b"GET" as &[u8]), taken);
    assert_eq!(0, req.pos());
    assert_eq!(Some(b' '), req.peek());
}

#[test]
fn raw_request_take_until_returns_none_when_first_byte_matches() {
    let mut req = RawRequest::new(b" GET");
    assert_eq!(None, req.take_until(|b| b == b' '));
    assert_eq!(Some(b' '), req.peek());
}

#[test]
fn raw_request_take_until_returns_none_at_end_of_input() {
    let mut req = RawRequest::new(b"GET");
    assert_eq!(None, req.take_until(|b| b == b' '));
    assert_eq!(0, req.len());
}

#[test]
fn raw_request_as_remaining_views_unconsumed_bytes() {
    let mut req = RawRequest::new(b"GET /");
    req.next();
    req.next();
    assert_eq!(b"T /", req.as_remaining());
    assert_eq!(2, req.pos());
}
