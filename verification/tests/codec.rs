use minihttp::error::RequestParseError;
use minihttp::message::{HttpVersion, Request, Response};
use minihttp::method::HttpMethod;

fn decode(bytes: &[u8]) -> Result<Request, RequestParseError> {
    Request::from_bytes(String::from("127.0.0.1:40000"), bytes)
}

#[test]
fn decode_valid_tokens_yield_matching_methods() {
    let cases: [(&[u8], HttpMethod); 5] = [
        (b"GET / HTTP/1.1\r\nHost: x\r\n\r\n", HttpMethod::Get),
        (b"POST / HTTP/1.1\r\nHost: x\r\n\r\n", HttpMethod::Post),
        (b"PUT / HTTP/1.1\r\nHost: x\r\n\r\n", HttpMethod::Put),
        (b"PATCH / HTTP/1.1\r\nHost: x\r\n\r\n", HttpMethod::Patch),
        (b"DELETE / HTTP/1.1\r\nHost: x\r\n\r\n", HttpMethod::Delete),
    ];
    for (bytes, expected) in cases {
        let req = decode(bytes).unwrap();
        assert_eq!(req.method(), expected);
    }
}

#[test]
fn decode_unknown_token_is_method_error() {
    let err = decode(b"FETCH / HTTP/1.1\r\nHost: x\r\n\r\n").unwrap_err();
    assert_eq!(err, RequestParseError::Method);
    let err = decode(b"get / HTTP/1.1\r\nHost: x\r\n\r\n").unwrap_err();
    assert_eq!(err, RequestParseError::Method);
    let err = decode(b"").unwrap_err();
    assert_eq!(err, RequestParseError::Method);
}

#[test]
fn decode_missing_path_is_route_error() {
    let err = decode(b"GET\r\nHost: x\r\n\r\n").unwrap_err();
    assert_eq!(err, RequestParseError::Route);
}

#[test]
fn decode_bad_protocol_is_protocol_error() {
    assert_eq!(
        decode(b"GET /\r\nHost: x\r\n\r\n").unwrap_err(),
        RequestParseError::Protocol
    );
    assert_eq!(
        decode(b"GET / HTTP\r\nHost: x\r\n\r\n").unwrap_err(),
        RequestParseError::Protocol
    );
    assert_eq!(
        decode(b"GET / HTTP/abc\r\nHost: x\r\n\r\n").unwrap_err(),
        RequestParseError::Protocol
    );
}

#[test]
fn decode_missing_host_is_host_error() {
    let err = decode(b"GET / HTTP/1.1\r\nAccept: text\r\n\r\n").unwrap_err();
    assert_eq!(err, RequestParseError::Host);
}

#[test]
fn decode_header_line_without_separator_names_the_header() {
    let err = decode(b"GET / HTTP/1.1\r\nBad-Line\r\n\r\n").unwrap_err();
    assert_eq!(err, RequestParseError::Header(b"bad-line".to_vec()));
}

#[test]
fn decode_unreadable_content_length_is_header_error() {
    let err = decode(b"POST / HTTP/1.1\r\nHost: x\r\nContent-Length: two\r\n\r\nhi").unwrap_err();
    assert_eq!(err, RequestParseError::Header(b"content-length".to_vec()));
}

#[test]
fn decode_content_length_beyond_buffer_is_body_error_not_a_panic() {
    let err = decode(b"POST / HTTP/1.1\r\nHost: x\r\nContent-Length: 4096\r\n\r\nhi").unwrap_err();
    assert_eq!(err, RequestParseError::Body);
}

#[test]
fn decode_invalid_text_is_malformed_request() {
    let err = decode(b"GET \xff\xfe HTTP/1.1\r\nHost: x\r\n\r\n").unwrap_err();
    assert_eq!(err, RequestParseError::MalformedRequest);
}

#[test]
fn decode_fills_every_request_attribute() {
    let req = decode(b"GET /a/b?k=v&x=b%20c HTTP/1.1\r\nHost: Example.com\r\nAccept: text\r\n\r\n")
        .unwrap();
    assert_eq!(req.method(), HttpMethod::Get);
    assert_eq!(req.route().as_slice(), b"/a/b");
    assert_eq!(req.protocol().as_slice(), b"http");
    assert_eq!(req.version(), HttpVersion { major: 1, minor: 1 });
    // the resource locator normalizes the host
    assert_eq!(req.host().as_slice(), b"example.com");
    assert_eq!(req.header(b"accept").map(|v| v.as_slice()), Some(&b"text"[..]));
    // query pairs are percent-decoded by the locator parser
    assert_eq!(req.query.len(), 2);
    assert_eq!(req.query[0], (b"k".to_vec(), b"v".to_vec()));
    assert_eq!(req.query[1], (b"x".to_vec(), b"b c".to_vec()));
    assert_eq!(req.raw().len(), 0);
}

#[test]
fn duplicate_query_keys_resolve_to_the_last_occurrence() {
    let req = decode(b"GET /p?k=one&k=two&other=x HTTP/1.1\r\nHost: x\r\n\r\n").unwrap();
    assert_eq!(req.query_param(b"k").map(|v| v.as_slice()), Some(&b"two"[..]));
    assert_eq!(req.query_param(b"other").map(|v| v.as_slice()), Some(&b"x"[..]));
    assert_eq!(req.query_param(b"missing"), None);
}

#[test]
fn decode_header_names_are_lowercased_and_last_duplicate_wins() {
    let req = decode(b"GET / HTTP/1.1\r\nHost: x\r\nX-Tag: one\r\nx-tag: two\r\n\r\n").unwrap();
    assert_eq!(req.header(b"x-tag").map(|v| v.as_slice()), Some(&b"two"[..]));
    assert_eq!(req.header(b"X-Tag"), None);
}

#[test]
fn decode_reads_exactly_content_length_body_bytes() {
    let req = decode(b"POST /e HTTP/1.1\r\nHost: x\r\nContent-Length: 2\r\n\r\nhi").unwrap();
    assert_eq!(req.raw().as_slice(), b"hi");
    assert_eq!(req.text().unwrap(), "hi");
}

#[test]
fn body_text_rejects_invalid_text() {
    let req = decode(b"POST /e HTTP/1.1\r\nHost: x\r\nContent-Length: 2\r\n\r\n\xff\xfe").unwrap();
    assert_eq!(req.raw().as_slice(), b"\xff\xfe");
    assert_eq!(req.text().unwrap_err(), RequestParseError::Body);
}

#[test]
fn encode_orders_status_line_headers_blank_line_body() {
    let mut r = Response::new(200);
    r.set_body(b"hi", b"text/plain");
    r.protocol = b"http".to_vec();
    r.version = HttpVersion { major: 1, minor: 1 };
    let bytes = r.to_bytes();
    assert_eq!(
        bytes.as_slice(),
        &b"HTTP/1.1 200\r\nContent-Length: 2\r\nContent-Type: text/plain\r\n\r\nhi\r\n\r\n"[..]
    );
}

#[test]
fn encode_empty_body_has_no_body_terminator() {
    let mut r = Response::new(204);
    r.protocol = b"http".to_vec();
    r.version = HttpVersion { major: 1, minor: 0 };
    let bytes = r.to_bytes();
    assert_eq!(bytes.as_slice(), &b"HTTP/1.0 204\r\n\r\n"[..]);
}

#[test]
fn set_body_appends_and_stamps_the_total_length() {
    let mut r = Response::new(200);
    r.set_body(b"ab", b"text/plain");
    r.set_body(b"cde", b"text/html");
    r.protocol = b"http".to_vec();
    r.version = HttpVersion { major: 1, minor: 1 };
    let bytes = r.to_bytes();
    assert_eq!(
        bytes.as_slice(),
        &b"HTTP/1.1 200\r\nContent-Length: 5\r\nContent-Type: text/html\r\n\r\nabcde\r\n\r\n"[..]
    );
}

#[test]
fn response_header_keeps_insertion_order_and_last_value_wins() {
    let mut r = Response::new(200);
    r.header(b"A", b"1");
    r.header(b"B", b"2");
    r.header(b"A", b"3");
    r.protocol = b"http".to_vec();
    r.version = HttpVersion { major: 1, minor: 1 };
    let bytes = r.to_bytes();
    assert_eq!(bytes.as_slice(), &b"HTTP/1.1 200\r\nA: 3\r\nB: 2\r\n\r\n"[..]);
}

#[test]
fn encode_then_reading_the_framing_back_reproduces_the_response() {
    // Round trip: status, Content-Length equal to the exact body byte
    // length, and the body bytes themselves all survive encoding.
    let body: &[u8] = b"payload-123";
    let mut r = Response::new(201);
    r.set_body(body, b"text/plain");
    r.header(b"X-Extra", b"yes");
    r.protocol = b"http".to_vec();
    r.version = HttpVersion { major: 1, minor: 1 };
    let bytes = r.to_bytes();

    // status: second token of the first line
    let line_end = bytes.windows(2).position(|w| w == b"\r\n").unwrap();
    let first_line = &bytes[..line_end];
    let status_tok = first_line.split(|b| *b == b' ').nth(1).unwrap();
    assert_eq!(status_tok, b"201");

    // headers: up to the blank line, Content-Length reads the body length
    let head_end = bytes.windows(4).position(|w| w == b"\r\n\r\n").unwrap();
    let head = &bytes[line_end + 2..head_end + 2];
    let mut content_length = None;
    for line in head.split(|b| *b == b'\n') {
        let line = line.strip_suffix(b"\r").unwrap_or(line);
        if let Some(v) = line.strip_prefix(b"Content-Length: ") {
            content_length = Some(String::from_utf8(v.to_vec()).unwrap());
        }
    }
    assert_eq!(content_length.as_deref(), Some("11"));
    assert_eq!(body.len(), 11);

    // body: exactly Content-Length bytes after the blank line
    let recovered = &bytes[head_end + 4..head_end + 4 + body.len()];
    assert_eq!(recovered, body);
    assert_eq!(&bytes[head_end + 4 + body.len()..], b"\r\n\r\n");
}

#[test]
fn content_type_follows_the_extension_table() {
    assert_eq!(
        Response::file_content_type("index.html"),
        "text/html; charset=utf-8"
    );
    assert_eq!(
        Response::file_content_type("DATA.JSON"),
        "application/json; charset=utf-8"
    );
    assert_eq!(Response::file_content_type("archive.tar.gz"), "application/gzip");
    assert_eq!(Response::file_content_type("noext"), "application/octet-stream");
    assert_eq!(Response::file_content_type("photo.jpeg"), "image/jpeg");
    assert_eq!(Response::file_content_type("trailing."), "application/octet-stream");
}

#[test]
fn text_constructor_stamps_length_and_type() {
    let mut r = Response::text("Not found", 404);
    r.protocol = b"http".to_vec();
    r.version = HttpVersion { major: 1, minor: 0 };
    let bytes = r.to_bytes();
    assert_eq!(
        bytes.as_slice(),
        &b"HTTP/1.0 404\r\nContent-Length: 9\r\nContent-Type: text/html\r\n\r\nNot found\r\n\r\n"[..]
    );
}

#[test]
fn fill_from_copies_protocol_and_version() {
    let req = decode(b"GET / HTTP/2.0\r\nHost: x\r\n\r\n").unwrap();
    let mut r = Response::new(200);
    r.fill_from(&req);
    assert_eq!(r.protocol.as_slice(), b"http");
    assert_eq!(r.version, HttpVersion { major: 2, minor: 0 });
}
