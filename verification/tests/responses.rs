use mini_http::decimal::{format_decimal, parse_decimal};
use mini_http::error::Error;
use mini_http::request::Header;
use mini_http::response::{error_response, Response, Status};

#[test]
fn bare_responses_on_the_wire() {
    assert_eq!(Response::bare(Status::Success).serialize(), b"HTTP/1.1 200 OK\r\n\r\n".to_vec());
    assert_eq!(Response::bare(Status::Created).serialize(), b"HTTP/1.1 201 Created\r\n\r\n".to_vec());
    assert_eq!(Response::bare(Status::NotFound).serialize(), b"HTTP/1.1 404 Not Found\r\n\r\n".to_vec());
    assert_eq!(Response::bare(Status::BadRequest).serialize(), b"HTTP/1.1 400 Bad Request\r\n\r\n".to_vec());
    assert_eq!(
        Response::bare(Status::InternalServerError).serialize(),
        b"HTTP/1.1 500 Internal Server Error\r\n\r\n".to_vec()
    );
}

#[test]
fn content_response_on_the_wire() {
    let r = Response::content(b"text/plain", b"abc".to_vec());
    assert_eq!(
        r.serialize(),
        b"HTTP/1.1 200 OK\r\nContent-Type: text/plain\r\nContent-Length: 3\r\n\r\nabc".to_vec()
    );
}

#[test]
fn content_response_describes_its_body() {
    let r = Response::content(b"application/octet-stream", vec![0, 255, 13, 10]);
    assert_eq!(r.status, Status::Success);
    assert_eq!(
        r.headers,
        vec![
            Header { name: b"Content-Type".to_vec(), value: b"application/octet-stream".to_vec() },
            Header { name: b"Content-Length".to_vec(), value: b"4".to_vec() },
        ]
    );
    assert_eq!(r.body, vec![0, 255, 13, 10]);
}

#[test]
fn headers_are_written_in_their_order() {
    let r = Response {
        status: Status::Success,
        headers: vec![
            Header { name: b"B".to_vec(), value: b"2".to_vec() },
            Header { name: b"A".to_vec(), value: b"".to_vec() },
            Header { name: b"B".to_vec(), value: b"x: y".to_vec() },
        ],
        body: b"\r\n".to_vec(),
    };
    assert_eq!(r.serialize(), b"HTTP/1.1 200 OK\r\nB: 2\r\nA: \r\nB: x: y\r\n\r\n\r\n".to_vec());
}

#[test]
fn status_codes_and_lines() {
    assert_eq!(Status::Success.code(), 200);
    assert_eq!(Status::Created.code(), 201);
    assert_eq!(Status::BadRequest.code(), 400);
    assert_eq!(Status::NotFound.code(), 404);
    assert_eq!(Status::InternalServerError.code(), 500);
    assert_eq!(Status::Success.status_line(), b"200 OK");
    assert_eq!(Status::Created.status_line(), b"201 Created");
    assert_eq!(Status::NotFound.status_line(), b"404 Not Found");
}

#[test]
fn every_error_has_its_response() {
    assert_eq!(error_response(Error::MalformedRequest), Response::bare(Status::BadRequest));
    assert_eq!(error_response(Error::NotFound), Response::bare(Status::NotFound));
    assert_eq!(error_response(Error::MissingHeader), Response::bare(Status::BadRequest));
    assert_eq!(error_response(Error::Configuration), Response::bare(Status::InternalServerError));
    assert_eq!(error_response(Error::Io), Response::bare(Status::InternalServerError));
}

#[test]
fn formats_decimal_numerals() {
    assert_eq!(format_decimal(0), b"0".to_vec());
    assert_eq!(format_decimal(7), b"7".to_vec());
    assert_eq!(format_decimal(10), b"10".to_vec());
    assert_eq!(format_decimal(12345), b"12345".to_vec());
    assert_eq!(format_decimal(usize::MAX), usize::MAX.to_string().into_bytes());
}

#[test]
fn parses_decimal_numerals() {
    assert_eq!(parse_decimal(b"0"), Some(0));
    assert_eq!(parse_decimal(b"007"), Some(7));
    assert_eq!(parse_decimal(b"12345"), Some(12345));
    assert_eq!(parse_decimal(usize::MAX.to_string().as_bytes()), Some(usize::MAX));
}

#[test]
fn rejects_what_is_no_numeral() {
    assert_eq!(parse_decimal(b""), None);
    assert_eq!(parse_decimal(b"12a"), None);
    assert_eq!(parse_decimal(b"+1"), None);
    assert_eq!(parse_decimal(b" 1"), None);
    assert_eq!(parse_decimal(b"1 "), None);
    assert_eq!(parse_decimal(b"/"), None);
    assert_eq!(parse_decimal(b":"), None);
}

#[test]
fn rejects_numerals_beyond_usize() {
    let mut big = usize::MAX.to_string().into_bytes();
    let last = big.len() - 1;
    big[last] += 1;
    assert_eq!(parse_decimal(&big), None);
    big.push(b'0');
    assert_eq!(parse_decimal(&big), None);
    assert_eq!(parse_decimal(b"999999999999999999999999999999"), None);
}

#[test]
fn decimal_round_trips() {
    for n in [0usize, 1, 9, 10, 99, 100, 4221, 65535, usize::MAX] {
        assert_eq!(parse_decimal(&format_decimal(n)), Some(n));
    }
}
