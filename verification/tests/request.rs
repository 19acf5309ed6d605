use rask::parser::h1::request::{H1Request, Header, Span, MAX_HEADERS};
use rask::parser::{Method, ParseError, Status, Version};

const REQ: &[u8] = b"\
GET /api/v1.0/weather/forecast HTTP/1.1\r\n\
Host: www.example.org\r\n\r\n";

const REQ_MED: &[u8] = b"\
GET /api/v1.0/weather/forecast HTTP/1.1\r\n\
Accept: */*\r\n\
Accept-Encoding: gzip,deflate,br\r\n\
Accept-Language: en-US,en;q=0.5\r\n\
Cache-Control: no-cache\r\n\
Connection: keep-alive\r\n\
DNT: 1\r\n\
Host: www.example.org\r\n\
Pragma: no-cache\r\n\
Referrer: https://www.example.org\r\n\
Sec-Fetch-Dest: empty\r\n\
Sec-Fetch-Mode: cors\r\n\
Sec-Fetch-Site: same-origin\r\n\
User-Agent: Mozilla/5.0 (X11; Linux x86_64; rv:109.0) Gecko/20100101 Firefox/109.0\r\n\r\n";

const REQ_LONG: &[u8] = b"POST /log?format=json&hasfast=true HTTP/1.1\r\n\
Host: play.google.com\r\n\
User-Agent: Mozilla/5.0 (X11; Linux x86_64; rv:109.0) Gecko/20100101 Firefox/109.0\r\n\
Accept: */*\r\n\
Accept-Language: en-US,en;q=0.5\r\n\
Accept-Encoding: gzip, deflate, br\r\n\
Referer: https://www.google.com/\r\n\
Content-Type: application/x-www-form-urlencoded;charset=utf-8\r\n\
Content-Length: 669\r\n\
Origin: https://www.google.com\r\n\
DNT: 1\r\n\
Connection: keep-alive\r\n\
Cookie: 1P_JAR=2023-01-24-14; AEC=xxxxxxxxxxxxxxxxxxxxxxxxxxxxxxxxxxxxxxxxxxxxxxxxxxxxxxxxxxx; NID=xxxxxxxxxxxxxxxxxxxxxxxxxxxxxxxxxxxxxxxxxxxxxxxxxxxxxxxxxxxxxxxxxxxxxxxxxxxxxxxxxxxxxxxxxxxxxxxxxxxxxxxxxxxxxxxxxxxxxxxxxxxxxxxxxxxxxxxxxxxxxxxxxxxxxxxxxxxxxxxxxxxxxxxxxxxxxxx; OGPC=xxxxxxxxxxx; ANID=xxxxxxxxxxxxxxxxxxxxxxxxxxxxxxxxxxxxxxxxxxxxxxxxxxxxxxxxxxxxxxxx; OGP=xxxxxxxxxx\r\n\
Sec-Fetch-Dest: empty\r\n\
Sec-Fetch-Mode: cors\r\n\
Sec-Fetch-Site: same-site\r\n\
Pragma: no-cache\r\n\
Cache-Control: no-cache\r\n\
TE: trailers\r\n\r\n";

const REQ_COMP: &[u8] = b"\
GET /wp-content/uploads/2010/03/darth-vader-jedi-battle-lightsaber.jpg HTTP/1.1\r\n\
Host: www.example.org\r\n\
User-Agent: Mozilla/5.0 (Macintosh; U; Intel Mac OS X 10.6; ja-JP-mac; rv:1.9.2.3) Gecko/20100401 Firefox/3.6.3 Pathtraq/0.9\r\n\
Accept: text/html,application/xhtml+xml,application/xml;q=0.9,*/*;q=0.8\r\n\
Accept-Language: ja,en-us;q=0.7,en;q=0.3\r\n\
Accept-Encoding: gzip,deflate\r\n\
Accept-Charset: Shift_JIS,utf-8;q=0.7,*;q=0.7\r\n\
Keep-Alive: 115\r\n\
Connection: keep-alive\r\n\
Cookie: wp_ozh_wsa_visits=2; wp_ozh_wsa_visit_lasttime=xxxxxxxxxx; __utma=xxxxxxxxx.xxxxxxxxxx.xxxxxxxxxx.xxxxxxxxxx.xxxxxxxxxx.x; __utmz=xxxxxxxxx.xxxxxxxxxx.x.x.utmccn=(referral)|utmcsr=reader.livedoor.com|utmcct=/reader/|utmcmd=referral|padding=under256\r\n\r\n";

#[test]
pub fn test_req() {
    let mut req = H1Request::new();
    assert_eq!(REQ.len(), req.fill(REQ));
    assert_eq!(Ok(Status::Complete(REQ.len())), req.parse());
    assert_eq!(Some(Method::Get), req.method);
    assert_eq!(&REQ[4..30], b"/api/v1.0/weather/forecast");
    assert_eq!(Some(Span { start: 4, end: 30 }), req.target);
    assert_eq!(Some(Version::H1_1), req.version);
    assert!(req.headers.is_some());
    assert_eq!(&REQ[41..45], b"Host");
    assert_eq!(&REQ[47..62], b"www.example.org");
    assert_eq!(
        Header {
            name: Span { start: 41, end: 45 },
            value: Span { start: 47, end: 62 },
        },
        req.headers.as_ref().unwrap()[0]
    );
}

#[test]
pub fn test_req_med() {
    let mut req = H1Request::new();
    assert_eq!(REQ_MED.len(), req.fill(REQ_MED));
    assert_eq!(Ok(Status::Complete(REQ_MED.len())), req.parse());
    assert_eq!(Some(Method::Get), req.method);
    assert_eq!(&REQ[4..30], b"/api/v1.0/weather/forecast");
    assert_eq!(Some(Span { start: 4, end: 30 }), req.target);
    assert_eq!(Some(Version::H1_1), req.version);
    assert!(req.headers.is_some());
    assert_eq!(
        Header {
            name: Span { start: 41, end: 47 },
            value: Span { start: 49, end: 52 },
        },
        req.headers.as_ref().unwrap()[0]
    );
    assert_eq!(&REQ_MED[41..47], b"Accept");
    assert_eq!(&REQ_MED[49..52], b"*/*");
}

#[test]
pub fn test_req_long() {
    let mut req = H1Request::new();
    assert_eq!(REQ_LONG.len(), req.fill(REQ_LONG));
    assert_eq!(Ok(Status::Complete(REQ_LONG.len())), req.parse());
    assert_eq!(req.serialized(), REQ_LONG.to_vec());
}

#[test]
pub fn test_req_comp() {
    let mut req = H1Request::new();
    assert_eq!(REQ_COMP.len(), req.fill(REQ_COMP));
    assert_eq!(Ok(Status::Complete(REQ_COMP.len())), req.parse());
    assert_eq!(req.serialized(), REQ_COMP.to_vec());
}

#[test]
pub fn test_multiple() {
    let inputs = [REQ, REQ_MED, REQ_COMP, REQ_LONG];

    for &input in inputs.iter() {
        let mut i = Vec::default();
        i.extend_from_slice(input);

        let mut req = H1Request::new();
        req.fill(&i);
        req.parse().unwrap();
        assert_eq!(input.to_vec(), req.serialized());
    }
}

#[test]
fn minimal_get_completes_with_consumed_18() {
    let mut req = H1Request::new();
    req.fill(b"GET / HTTP/1.1\r\n\r\n");
    assert_eq!(Ok(Status::Complete(18)), req.parse());
    assert_eq!(Some(Method::Get), req.method);
    assert_eq!(Some(Span { start: 4, end: 5 }), req.target);
    assert_eq!(Some(Version::H1_1), req.version);
    assert_eq!(0, req.headers.as_ref().unwrap().len());
    assert!(req.complete);
}

#[test]
fn single_header_is_parsed() {
    let input: &[u8] = b"GET / HTTP/1.1\r\nHost: www.example.org\r\n\r\n";
    let mut req = H1Request::new();
    req.fill(input);
    assert_eq!(Ok(Status::Complete(input.len())), req.parse());
    assert_eq!(Some(Method::Get), req.method);
    let t = req.target.unwrap();
    assert_eq!(&input[t.start..t.end], b"/");
    assert_eq!(Some(Version::H1_1), req.version);
    let headers = req.headers.as_ref().unwrap();
    assert_eq!(1, headers.len());
    let h = headers[0];
    assert_eq!(&input[h.name.start..h.name.end], b"Host");
    assert_eq!(&input[h.value.start..h.value.end], b"www.example.org");
}

#[test]
fn ows_after_colon_is_skipped() {
    let input: &[u8] = b"POST /x HTTP/1.1\r\nX-A:\tv\r\n\r\n";
    let mut req = H1Request::new();
    req.fill(input);
    assert_eq!(Ok(Status::Complete(input.len())), req.parse());
    assert_eq!(Some(Method::Post), req.method);
    let headers = req.headers.as_ref().unwrap();
    assert_eq!(1, headers.len());
    let h = headers[0];
    assert_eq!(&input[h.name.start..h.name.end], b"X-A");
    assert_eq!(&input[h.value.start..h.value.end], b"v");
}

#[test]
fn trailing_ows_in_value_is_trimmed() {
    let input: &[u8] = b"GET / HTTP/1.1\r\nA: b c  \t\r\n\r\n";
    let mut req = H1Request::new();
    req.fill(input);
    assert_eq!(Ok(Status::Complete(input.len())), req.parse());
    let headers = req.headers.as_ref().unwrap();
    let h = headers[0];
    assert_eq!(&input[h.value.start..h.value.end], b"b c");
}

#[test]
fn unknown_method_is_a_method_error() {
    let mut req = H1Request::new();
    req.fill(b"FOO / HTTP/1.1\r\n\r\n");
    assert_eq!(Err(ParseError::Method), req.parse());
}

#[test]
fn bare_lf_is_a_newline_error() {
    let mut req = H1Request::new();
    req.fill(b"GET / HTTP/1.1\nHost: h\n\n");
    assert_eq!(Err(ParseError::NewLine), req.parse());
}

#[test]
fn bad_version_is_a_version_error() {
    let mut req = H1Request::new();
    req.fill(b"GET / HTTX/1.1\r\n\r\n");
    assert_eq!(Err(ParseError::Version), req.parse());
}

#[test]
fn bad_header_name_is_a_header_name_error() {
    let mut req = H1Request::new();
    req.fill(b"GET / HTTP/1.1\r\n@: v\r\n\r\n");
    assert_eq!(Err(ParseError::HeaderName), req.parse());
}

#[test]
fn bad_header_value_is_a_header_value_error() {
    let mut req = H1Request::new();
    req.fill(b"GET / HTTP/1.1\r\nA:\x01ok\r\n\r\n");
    assert_eq!(Err(ParseError::HeaderValue), req.parse());
}

#[test]
fn partial_then_complete() {
    let mut req = H1Request::new();
    req.fill(b"GET / HTTP/1.");
    assert_eq!(Ok(Status::Partial), req.parse());
    assert!(!req.complete);
    req.fill(b"1\r\n\r\n");
    assert_eq!(Ok(Status::Complete(18)), req.parse());
    assert!(req.complete);
}

#[test]
fn every_proper_prefix_of_a_request_is_partial() {
    let input: &[u8] = b"GET /abc HTTP/1.1\r\nHost: h\r\n\r\n";
    for n in 0..input.len() {
        let mut req = H1Request::new();
        req.fill(&input[..n]);
        assert_eq!(Ok(Status::Partial), req.parse(), "prefix of length {}", n);
    }
    let mut req = H1Request::new();
    req.fill(input);
    assert_eq!(Ok(Status::Complete(input.len())), req.parse());
}

#[test]
fn del_byte_in_target_is_a_target_error() {
    let mut req = H1Request::new();
    req.fill(b"GET /a\x7fb HTTP/1.1\r\n\r\n");
    assert_eq!(Err(ParseError::Target), req.parse());
}

#[test]
fn high_byte_in_target_is_a_target_error() {
    let mut req = H1Request::new();
    req.fill(b"GET /a\x80b HTTP/1.1\r\n\r\n");
    assert_eq!(Err(ParseError::Target), req.parse());
}

#[test]
fn empty_target_is_a_target_error() {
    let mut req = H1Request::new();
    req.fill(b"GET  / HTTP/1.1\r\n\r\n");
    assert_eq!(Err(ParseError::Target), req.parse());
}

#[test]
fn more_headers_than_capacity_is_a_capacity_error() {
    let mut input: Vec<u8> = b"GET / HTTP/1.1\r\n".to_vec();
    for _ in 0..(MAX_HEADERS + 1) {
        input.extend_from_slice(b"H: v\r\n");
    }
    input.extend_from_slice(b"\r\n");
    let mut req = H1Request::new();
    req.fill(&input);
    assert_eq!(Err(ParseError::Capacity), req.parse());
}

#[test]
fn exactly_capacity_headers_still_parses() {
    let mut input: Vec<u8> = b"GET / HTTP/1.1\r\n".to_vec();
    for _ in 0..MAX_HEADERS {
        input.extend_from_slice(b"H: v\r\n");
    }
    input.extend_from_slice(b"\r\n");
    let mut req = H1Request::new();
    req.fill(&input);
    assert_eq!(Ok(Status::Complete(input.len())), req.parse());
    assert_eq!(MAX_HEADERS, req.headers.as_ref().unwrap().len());
}

#[test]
fn request_line_round_trips_for_every_method_and_version() {
    let methods: [(Method, &[u8]); 8] = [
        (Method::Get, b"GET"),
        (Method::Head, b"HEAD"),
        (Method::Post, b"POST"),
        (Method::Put, b"PUT"),
        (Method::Delete, b"DELETE"),
        (Method::Connect, b"CONNECT"),
        (Method::Options, b"OPTIONS"),
        (Method::Trace, b"TRACE"),
    ];
    let versions: [(Version, &[u8]); 4] = [
        (Version::H1_0, b"HTTP/1.0"),
        (Version::H1_1, b"HTTP/1.1"),
        (Version::H2, b"HTTP/2"),
        (Version::H3, b"HTTP/3"),
    ];
    let target: &[u8] = b"/index.html?q=1&lang=en";
    for &(m, mtxt) in methods.iter() {
        for &(v, vtxt) in versions.iter() {
            let mut input: Vec<u8> = Vec::new();
            input.extend_from_slice(mtxt);
            input.push(b' ');
            input.extend_from_slice(target);
            input.push(b' ');
            input.extend_from_slice(vtxt);
            input.extend_from_slice(b"\r\n\r\n");
            let mut req = H1Request::new();
            req.fill(&input);
            assert_eq!(Ok(Status::Complete(input.len())), req.parse());
            assert_eq!(Some(m), req.method);
            assert_eq!(Some(v), req.version);
            let t = req.target.unwrap();
            assert_eq!(&input[t.start..t.end], target);
            assert_eq!(0, req.headers.as_ref().unwrap().len());
            assert_eq!(input, req.serialized());
        }
    }
}

#[test]
fn parsing_twice_gives_the_same_result() {
    let input: &[u8] = b"GET / HTTP/1.1\r\nHost: h\r\n\r\n";
    let mut a = H1Request::new();
    a.fill(input);
    let first = a.parse();
    let mut b = H1Request::new();
    b.fill(input);
    let second = b.parse();
    assert_eq!(first, second);
    assert_eq!(first, a.parse());
    assert_eq!(a.method, b.method);
    assert_eq!(a.target, b.target);
    assert_eq!(a.version, b.version);
    assert_eq!(a.headers, b.headers);
}

#[test]
fn complete_ranges_lie_within_consumed() {
    let input: &[u8] = b"GET /p HTTP/1.1\r\nA: b\r\n\r\nGARBAGE \x00 BYTES";
    let mut req = H1Request::new();
    req.fill(input);
    let consumed = match req.parse() {
        Ok(Status::Complete(n)) => n,
        other => panic!("expected completion, got {:?}", other),
    };
    assert_eq!(25, consumed);
    let t = req.target.unwrap();
    assert!(t.start <= t.end && t.end < consumed);
    for h in req.headers.as_ref().unwrap().iter() {
        assert!(h.name.start <= h.name.end && h.name.end < consumed);
        assert!(h.value.start <= h.value.end && h.value.end < consumed);
    }
}

#[test]
fn space_inside_target_reads_as_the_separator() {
    // A 0x20 inside the target is indistinguishable from the SP that ends
    // it: the bytes before it parse as the target and the bytes after it
    // are taken for the version, which then fails to match.
    let mut req = H1Request::new();
    req.fill(b"GET /a b HTTP/1.1\r\n\r\n");
    assert_eq!(Err(ParseError::Version), req.parse());
}
