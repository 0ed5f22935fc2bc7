use minihttp::error::{DefaultError, DefaultErrorAction, ErrorAction, RequestParseError,
    ServerError};
use minihttp::http_server::{idle_expired, keep_alive, HttpServer};
use minihttp::message::{HttpVersion, Request, Response};
use minihttp::route::{NotFoundAction, RouteAction};

#[derive(Clone, Copy, PartialEq, Eq, Debug)]
enum TestAction {
    NotFound,
    Echo,
    Index,
}

impl RouteAction<DefaultError> for TestAction {
    fn invoke(&self, req: &Request) -> Result<Response, DefaultError> {
        match self {
            TestAction::NotFound => Err(DefaultError::NotFound),
            TestAction::Echo => {
                let mut r = Response::new(200);
                let body: Vec<u8> = req.raw().clone();
                r.set_body(body.as_slice(), b"text/plain");
                Ok(r)
            },
            TestAction::Index => Ok(Response::text("Welcome to index", 200)),
        }
    }
}

fn peer() -> String {
    String::from("127.0.0.1:50000")
}

#[test]
fn unrouted_one_zero_request_gets_404_and_the_connection_closes() {
    let server = HttpServer::default();
    let (bytes, keep) = server.handle_exchange(peer(), b"GET / HTTP/1.0\r\nHost: x\r\n\r\n");
    assert_eq!(
        bytes.as_slice(),
        &b"HTTP/1.0 404\r\nContent-Length: 9\r\nContent-Type: text/html\r\n\r\nNot found\r\n\r\n"[..]
    );
    assert!(!keep);
}

#[test]
fn echoed_post_keeps_a_one_one_connection_open() {
    let mut server = HttpServer::new(TestAction::NotFound, DefaultErrorAction);
    server.post("/echo", TestAction::Echo);
    server.activate();
    let (bytes, keep) =
        server.handle_exchange(peer(), b"POST /echo HTTP/1.1\r\nHost: x\r\nContent-Length: 2\r\n\r\nhi");
    assert_eq!(
        bytes.as_slice(),
        &b"HTTP/1.1 200\r\nContent-Length: 2\r\nContent-Type: text/plain\r\n\r\nhi\r\n\r\n"[..]
    );
    assert!(keep);
}

#[test]
fn connection_close_header_closes_a_one_one_connection() {
    let mut server = HttpServer::new(TestAction::NotFound, DefaultErrorAction);
    server.get("/", TestAction::Index);
    let (_, keep) = server.handle_exchange(
        peer(),
        b"GET / HTTP/1.1\r\nHost: x\r\nConnection: close\r\n\r\n",
    );
    assert!(!keep);
    let (_, keep) = server.handle_exchange(peer(), b"GET / HTTP/1.1\r\nHost: x\r\n\r\n");
    assert!(keep);
}

#[test]
fn a_decode_failure_is_still_answered_with_a_response() {
    let server = HttpServer::default();
    // missing host: a parse failure, never a dropped connection
    let (bytes, keep) = server.handle_exchange(peer(), b"GET / HTTP/1.1\r\n\r\n");
    assert_eq!(
        bytes.as_slice(),
        &b"HTTP/1.1 500\r\nContent-Length: 17\r\nContent-Type: text/html\r\n\r\nMalformed request\r\n\r\n"[..]
    );
    assert!(!keep);
}

#[test]
fn registration_methods_cover_every_verb() {
    let mut server = HttpServer::new(TestAction::NotFound, DefaultErrorAction);
    server.get("/g", TestAction::Index);
    server.post("/p", TestAction::Index);
    server.put("/u", TestAction::Index);
    server.patch("/t", TestAction::Index);
    server.delete("/d", TestAction::Index);
    for (req, expect_hit) in [
        (&b"GET /g HTTP/1.1\r\nHost: x\r\n\r\n"[..], true),
        (&b"POST /p HTTP/1.1\r\nHost: x\r\n\r\n"[..], true),
        (&b"PUT /u HTTP/1.1\r\nHost: x\r\n\r\n"[..], true),
        (&b"PATCH /t HTTP/1.1\r\nHost: x\r\n\r\n"[..], true),
        (&b"DELETE /d HTTP/1.1\r\nHost: x\r\n\r\n"[..], true),
        (&b"GET /p HTTP/1.1\r\nHost: x\r\n\r\n"[..], false),
    ] {
        let (bytes, _) = server.handle_exchange(peer(), req);
        let ok = bytes.windows(3).any(|w| w == b"200");
        assert_eq!(ok, expect_hit);
    }
}

#[test]
fn the_default_translator_maps_each_error_kind() {
    let req = Request::from_bytes(peer(), b"GET / HTTP/1.1\r\nHost: x\r\n\r\n").unwrap();
    let not_found = DefaultErrorAction.translate(&req, DefaultError::NotFound);
    assert_eq!(not_found.status, 404);
    assert_eq!(not_found.body.as_slice(), b"Not found");
    let parse = DefaultErrorAction.translate(
        &req,
        DefaultError::RequestParse(RequestParseError::Host),
    );
    assert_eq!(parse.status, 500);
    assert_eq!(parse.body.as_slice(), b"Malformed request");
    let other = DefaultErrorAction.translate(&req, DefaultError::Other(String::from("boom")));
    assert_eq!(other.status, 500);
    assert_eq!(other.body.as_slice(), b"Internal server error");
}

#[test]
fn the_not_found_action_fails_with_the_not_found_error() {
    let req = Request::from_bytes(peer(), b"GET / HTTP/1.1\r\nHost: x\r\n\r\n").unwrap();
    assert_eq!(NotFoundAction.invoke(&req).unwrap_err(), DefaultError::NotFound);
}

#[test]
fn error_kinds_describe_themselves_and_absorb_parse_failures() {
    assert_eq!(
        DefaultError::NotFound.message(),
        "could not find the requested resource"
    );
    assert_eq!(RequestParseError::Host.message(), "failed to parse host");
    assert_eq!(
        RequestParseError::Header(b"x".to_vec()).message(),
        "failed to parse header"
    );
    assert_eq!(DefaultError::Other(String::from("boom")).message(), "boom");
    assert_eq!(
        DefaultError::from_parse(RequestParseError::Host),
        DefaultError::RequestParse(RequestParseError::Host)
    );
}

#[test]
fn keep_alive_reads_version_and_connection_header() {
    let one_zero =
        Request::from_bytes(peer(), b"GET / HTTP/1.0\r\nHost: x\r\n\r\n").unwrap();
    assert!(!keep_alive(&one_zero));
    let one_one = Request::from_bytes(peer(), b"GET / HTTP/1.1\r\nHost: x\r\n\r\n").unwrap();
    assert!(keep_alive(&one_one));
    assert_eq!(one_one.version(), HttpVersion { major: 1, minor: 1 });
}

#[test]
fn the_idle_threshold_is_four_seconds() {
    assert!(!idle_expired(0));
    assert!(!idle_expired(4));
    assert!(idle_expired(5));
}
