use mini_http::bytes::{copy_range, equal, equal_ignoring_case, index_of, index_of_crlf, starts_with, to_lower};
use mini_http::error::Error;
use mini_http::files::{file_read_response, file_write_response, files, is_contained, join, Step};
use mini_http::handler::{echo, handle, not_found, respond, root, settle, user_agent};
use mini_http::request::{Header, HeaderLine, Method, Request};
use mini_http::response::{Response, Status};

fn request(method: Method, path: &str, headers: &[(&str, &str)], body: &[u8]) -> Request {
    Request {
        method,
        path: path.as_bytes().to_vec(),
        headers: headers
            .iter()
            .map(|(n, v)| HeaderLine::Field(Header { name: n.as_bytes().to_vec(), value: v.as_bytes().to_vec() }))
            .collect(),
        body: body.to_vec(),
    }
}

fn wire(step: Step) -> Vec<u8> {
    match step {
        Step::Reply(r) => r.serialize(),
        other => panic!("not a reply: {:?}", other),
    }
}

#[test]
fn echo_returns_the_text() {
    let r = echo(b"abc");
    assert_eq!(r, Response::content(b"text/plain", b"abc".to_vec()));
    assert_eq!(r.status, Status::Success);
    assert_eq!(r.body, b"abc".to_vec());
    assert_eq!(r.headers[1].value, b"3".to_vec());
}

#[test]
fn echo_of_nothing_is_empty() {
    let step = handle(&request(Method::Get, "/echo/", &[], b""), None).unwrap();
    assert_eq!(step, Step::Reply(Response::content(b"text/plain", vec![])));
    assert_eq!(
        wire(step),
        b"HTTP/1.1 200 OK\r\nContent-Type: text/plain\r\nContent-Length: 0\r\n\r\n".to_vec()
    );
}

#[test]
fn echo_does_not_decode_the_path() {
    let step = handle(&request(Method::Get, "/echo/a%20b/../c", &[], b""), None).unwrap();
    assert_eq!(step, Step::Reply(Response::content(b"text/plain", b"a%20b/../c".to_vec())));
}

#[test]
fn echo_over_the_wire() {
    assert_eq!(
        wire(respond(b"GET /echo/abc HTTP/1.1\r\nHost: localhost:4221\r\n\r\n", None)),
        b"HTTP/1.1 200 OK\r\nContent-Type: text/plain\r\nContent-Length: 3\r\n\r\nabc".to_vec()
    );
    let long = "x".repeat(1234);
    let input = format!("GET /echo/{} HTTP/1.1\r\n\r\n", long);
    let expected = format!("HTTP/1.1 200 OK\r\nContent-Type: text/plain\r\nContent-Length: 1234\r\n\r\n{}", long);
    assert_eq!(wire(respond(input.as_bytes(), None)), expected.into_bytes());
}

#[test]
fn root_ignores_headers_and_method() {
    assert_eq!(root(), Response::bare(Status::Success));
    for method in [Method::Get, Method::Post, Method::Other] {
        let step = handle(&request(method, "/", &[("User-Agent", " x"), ("Content-Length", " 9")], b"body"), None);
        assert_eq!(step, Ok(Step::Reply(Response::bare(Status::Success))));
    }
    assert_eq!(
        wire(respond(b"GET / HTTP/1.1\r\nHost: a\r\nAccept: */*\r\n\r\n", None)),
        b"HTTP/1.1 200 OK\r\n\r\n".to_vec()
    );
}

#[test]
fn user_agent_is_reflected() {
    assert_eq!(
        wire(respond(b"GET /user-agent HTTP/1.1\r\nHost: a\r\nUser-Agent: foo/1.0\r\n\r\n", None)),
        b"HTTP/1.1 200 OK\r\nContent-Type: text/plain\r\nContent-Length: 7\r\n\r\nfoo/1.0".to_vec()
    );
}

#[test]
fn user_agent_header_name_may_be_in_any_case() {
    assert_eq!(
        wire(respond(b"GET /user-agent HTTP/1.1\r\nuser-agent: foo/1.0\r\n\r\n", None)),
        b"HTTP/1.1 200 OK\r\nContent-Type: text/plain\r\nContent-Length: 7\r\n\r\nfoo/1.0".to_vec()
    );
    let r = user_agent(&request(Method::Get, "/user-agent", &[("USER-AGENT", " foo/1.0")], b"").headers).unwrap();
    assert_eq!(r.body, b"foo/1.0".to_vec());
}

#[test]
fn user_agent_missing_is_an_error_of_the_request() {
    let req = request(Method::Get, "/user-agent", &[("Host", " a")], b"");
    assert_eq!(user_agent(&req.headers), Err(Error::MissingHeader));
    assert_eq!(handle(&req, None), Err(Error::MissingHeader));
    assert_eq!(
        wire(respond(b"GET /user-agent HTTP/1.1\r\nHost: a\r\n\r\n", None)),
        b"HTTP/1.1 400 Bad Request\r\n\r\n".to_vec()
    );
}

#[test]
fn unknown_path_is_not_found() {
    assert_eq!(not_found(), Response::bare(Status::NotFound));
    assert_eq!(wire(respond(b"GET /nope HTTP/1.1\r\n\r\n", None)), b"HTTP/1.1 404 Not Found\r\n\r\n".to_vec());
    assert_eq!(
        wire(respond(b"POST /echo HTTP/1.1\r\n\r\n", Some(b"/tmp"))),
        b"HTTP/1.1 404 Not Found\r\n\r\n".to_vec()
    );
}

#[test]
fn malformed_request_is_answered() {
    assert_eq!(wire(respond(b"GET\r\n\r\n", None)), b"HTTP/1.1 400 Bad Request\r\n\r\n".to_vec());
    assert_eq!(wire(respond(b"", None)), b"HTTP/1.1 400 Bad Request\r\n\r\n".to_vec());
    assert_eq!(wire(respond(&[0u8; 512], None)), b"HTTP/1.1 400 Bad Request\r\n\r\n".to_vec());
}

#[test]
fn file_get_asks_for_a_read() {
    let step = respond(b"GET /files/a.txt HTTP/1.1\r\n\r\n", Some(b"/tmp/data"));
    assert_eq!(step, Step::ReadFile { path: b"/tmp/data/a.txt".to_vec() });
}

#[test]
fn file_post_asks_for_a_write() {
    let step = respond(b"POST /files/a.txt HTTP/1.1\r\nContent-Length: 5\r\n\r\nhello", Some(b"/tmp/data/"));
    assert_eq!(step, Step::WriteFile { path: b"/tmp/data/a.txt".to_vec(), contents: b"hello".to_vec() });
}

#[test]
fn file_write_then_read_round_trips() {
    let body = b"B\r\n\x00\xff".to_vec();
    let input = [&b"POST /files/x HTTP/1.1\r\nContent-Length: 5\r\n\r\n"[..], &body].concat();
    let (written_to, contents) = match respond(&input, Some(b"dir")) {
        Step::WriteFile { path, contents } => (path, contents),
        other => panic!("{:?}", other),
    };
    assert_eq!(contents, body);
    assert_eq!(file_write_response(true), Ok(Response::bare(Status::Created)));
    let read_from = match respond(b"GET /files/x HTTP/1.1\r\n\r\n", Some(b"dir")) {
        Step::ReadFile { path } => path,
        other => panic!("{:?}", other),
    };
    assert_eq!(read_from, written_to);
    let r = file_read_response(Some(contents));
    assert_eq!(r.status, Status::Success);
    assert_eq!(r.body, body);
    assert_eq!(
        r.serialize(),
        [&b"HTTP/1.1 200 OK\r\nContent-Type: application/octet-stream\r\nContent-Length: 5\r\n\r\n"[..], &body]
            .concat()
    );
}

#[test]
fn file_that_cannot_be_read_is_not_found() {
    let r = file_read_response(None);
    assert_eq!(r, Response::bare(Status::NotFound));
    assert_eq!(r.serialize(), b"HTTP/1.1 404 Not Found\r\n\r\n".to_vec());
}

#[test]
fn file_that_cannot_be_written_is_a_server_error() {
    assert_eq!(file_write_response(false), Err(Error::Io));
    assert_eq!(settle(file_write_response(false)), Response::bare(Status::InternalServerError));
    assert_eq!(settle(file_write_response(true)).serialize(), b"HTTP/1.1 201 Created\r\n\r\n".to_vec());
}

#[test]
fn file_route_without_base_directory_is_a_configuration_error() {
    assert_eq!(files(Method::Get, b"a", b"", None), Err(Error::Configuration));
    assert_eq!(files(Method::Post, b"a", b"x", None), Err(Error::Configuration));
    assert_eq!(
        wire(respond(b"GET /files/a HTTP/1.1\r\n\r\n", None)),
        b"HTTP/1.1 500 Internal Server Error\r\n\r\n".to_vec()
    );
}

#[test]
fn file_route_serves_get_and_post_only() {
    assert_eq!(files(Method::Other, b"a", b"", Some(b"d")), Ok(Step::Reply(Response::bare(Status::NotFound))));
    assert_eq!(files(Method::Other, b"a", b"", None), Ok(Step::Reply(Response::bare(Status::NotFound))));
    assert_eq!(
        wire(respond(b"DELETE /files/a HTTP/1.1\r\n\r\n", Some(b"d"))),
        b"HTTP/1.1 404 Not Found\r\n\r\n".to_vec()
    );
}

#[test]
fn file_names_that_leave_the_base_directory_are_not_found() {
    for name in ["..", "../x", "a/../b", "a/..", "/etc/passwd", "/", "a/b/../../.."] {
        assert!(!is_contained(name.as_bytes()), "{}", name);
        assert_eq!(files(Method::Get, name.as_bytes(), b"", Some(b"d")), Err(Error::NotFound));
        assert_eq!(files(Method::Post, name.as_bytes(), b"x", Some(b"d")), Err(Error::NotFound));
    }
    assert_eq!(
        wire(respond(b"GET /files/../secret HTTP/1.1\r\n\r\n", Some(b"d"))),
        b"HTTP/1.1 404 Not Found\r\n\r\n".to_vec()
    );
}

#[test]
fn file_names_with_dots_that_stay_inside_are_served() {
    for name in ["", "a", "a.txt", "..a", "a..", "a/..b/c", "...", "a/.../b", ".", "./a", "a/b/c", ".. ", "a//b"] {
        assert!(is_contained(name.as_bytes()), "{}", name);
    }
    assert_eq!(files(Method::Get, b"...", b"", Some(b"d")), Ok(Step::ReadFile { path: b"d/...".to_vec() }));
}

#[test]
fn join_adds_one_slash_where_needed() {
    assert_eq!(join(b"/tmp", b"a"), b"/tmp/a".to_vec());
    assert_eq!(join(b"/tmp/", b"a"), b"/tmp/a".to_vec());
    assert_eq!(join(b"", b"a"), b"a".to_vec());
    assert_eq!(join(b"/", b"a"), b"/a".to_vec());
    assert_eq!(join(b"d", b""), b"d/".to_vec());
    assert_eq!(join(b"d", b"a/b"), b"d/a/b".to_vec());
}

#[test]
fn settle_keeps_a_response() {
    let r = Response::content(b"text/plain", b"x".to_vec());
    assert_eq!(settle(Ok(r.clone())), r);
    assert_eq!(settle(Err(Error::NotFound)), Response::bare(Status::NotFound));
}

#[test]
fn byte_helpers() {
    assert_eq!(to_lower(b'A'), b'a');
    assert_eq!(to_lower(b'Z'), b'z');
    assert_eq!(to_lower(b'a'), b'a');
    assert_eq!(to_lower(b'@'), b'@');
    assert_eq!(to_lower(b'['), b'[');
    assert_eq!(to_lower(0xC4), 0xC4);
    assert!(equal(b"ab", b"ab"));
    assert!(!equal(b"ab", b"aB"));
    assert!(!equal(b"ab", b"abc"));
    assert!(equal_ignoring_case(b"Content-Length", b"content-length"));
    assert!(!equal_ignoring_case(b"Content-Length", b"content_length"));
    assert!(starts_with(b"/echo/x", b"/echo/"));
    assert!(starts_with(b"x", b""));
    assert!(!starts_with(b"/ech", b"/echo/"));
    assert_eq!(index_of(b"a b c", b' ', 0), 1);
    assert_eq!(index_of(b"a b c", b' ', 2), 3);
    assert_eq!(index_of(b"a b c", b' ', 4), 5);
    assert_eq!(index_of(b"abc", b' ', 0), 3);
    assert_eq!(index_of_crlf(b"a\r\nb\r\n", 0), 1);
    assert_eq!(index_of_crlf(b"a\r\nb\r\n", 2), 4);
    assert_eq!(index_of_crlf(b"a\rb\n\r", 0), 5);
    assert_eq!(index_of_crlf(b"", 0), 0);
    assert_eq!(copy_range(b"hello", 1, 3), b"el".to_vec());
    assert_eq!(copy_range(b"hello", 2, 2), Vec::<u8>::new());
}
