//! From the bytes of a connection to a structured request.
//!
//! A request is a request line, header lines and an empty line, each ended
//! by CR LF, and then a body:
//!
//! ```text
//! METHOD SP PATH SP VERSION CRLF
//! *( NAME ":" VALUE CRLF )
//! CRLF
//! BODY
//! ```

use vstd::prelude::*;
use vstd::slice::slice_subrange;
use vstd::string::StringSliceAdditionalSpecFns;
use crate::bytes::{
    copy_range, equal, find_byte, find_crlf, index_of, index_of_crlf, lemma_find_byte,
    lemma_find_crlf, COLON, SLASH, SPACE,
};
use crate::decimal::{decimal_value, parse_decimal};
use crate::error::Error;
use crate::request::{
    get_headers, lines_view, lookup, Header, HeaderLine, HeaderLineView, HeaderView, Method,
    Request, RequestView,
};

verus! {

/// The method that a token of the request line names. The match is exact:
/// method names are case-sensitive.
pub open spec fn method_of(token: Seq<u8>) -> Method {
    if token == "GET".spec_bytes() {
        Method::Get
    } else if token == "POST".spec_bytes() {
        Method::Post
    } else {
        Method::Other
    }
}

/// The method and the path of a request line, which is well formed when it
/// holds at least two spaces and the field between the first two begins
/// with `/`. What follows the second space is the protocol version; nothing
/// is asked of it.
pub open spec fn request_line(line: Seq<u8>) -> Option<(Method, Seq<u8>)> {
    let first = find_byte(line, SPACE, 0);
    let second = find_byte(line, SPACE, first + 1);
    if first < line.len() && second < line.len() && line[first + 1] == SLASH {
        Some((method_of(line.subrange(0, first)), line.subrange(first + 1, second)))
    } else {
        None
    }
}

/// A header line is split at its first colon; one without a colon is kept
/// whole.
pub open spec fn header_line(line: Seq<u8>) -> HeaderLineView {
    let colon = find_byte(line, COLON, 0);
    if colon < line.len() {
        HeaderLineView::Field(
            HeaderView {
                name: line.subrange(0, colon),
                value: line.subrange(colon + 1, line.len() as int),
            },
        )
    } else {
        HeaderLineView::Opaque(line)
    }
}

/// The header lines that start at `from`: each non-empty line that a line
/// terminator ends, up to the first empty line or the last terminated line.
pub open spec fn headers_from(s: Seq<u8>, from: int) -> Seq<HeaderLineView>
    decreases s.len() - from,
{
    let end = find_crlf(s, from);
    if 0 <= from < end < s.len() {
        proof {
            lemma_find_crlf(s, from);
        }
        seq![header_line(s.subrange(from, end))] + headers_from(s, end + 2)
    } else {
        Seq::empty()
    }
}

/// Where the header lines that start at `from` stop: the index of the empty
/// line that ends them, or `s.len()` if the input ends before one.
pub open spec fn head_end(s: Seq<u8>, from: int) -> int
    decreases s.len() - from,
{
    let end = find_crlf(s, from);
    if 0 <= from < end < s.len() {
        proof {
            lemma_find_crlf(s, from);
        }
        head_end(s, end + 2)
    } else {
        end
    }
}

/// All of a request but its body.
pub ghost struct HeadView {
    pub method: Method,
    pub path: Seq<u8>,
    pub headers: Seq<HeaderLineView>,
    /// Index of the empty line after the headers; the input's length if
    /// there is none.
    pub end: int,
}

/// The head of the request that `s` begins with, if its first line is a
/// terminated, well-formed request line.
pub open spec fn head_of(s: Seq<u8>) -> Option<HeadView> {
    let end = find_crlf(s, 0);
    if end < s.len() {
        match request_line(s.subrange(0, end)) {
            Some((method, path)) => Some(
                HeadView {
                    method,
                    path,
                    headers: headers_from(s, end + 2),
                    end: head_end(s, end + 2),
                },
            ),
            None => None,
        }
    } else {
        None
    }
}

/// The body length that the headers declare: the value of the first
/// `Content-Length` field, if it is a decimal number that fits in `usize`.
pub open spec fn declared_length(headers: Seq<HeaderLineView>) -> Option<nat> {
    match lookup(headers, "Content-Length".spec_bytes()) {
        Some(value) => match decimal_value(value) {
            Some(n) => if n <= usize::MAX {
                Some(n)
            } else {
                None
            },
            None => None,
        },
        None => None,
    }
}

/// How many body bytes the request asks for: the declared length of a
/// `POST` whose head is complete, and none otherwise.
pub open spec fn body_length(s: Seq<u8>, head: HeadView) -> nat {
    if head.method == Method::Post && head.end < s.len() {
        match declared_length(head.headers) {
            Some(n) => n,
            None => 0,
        }
    } else {
        0
    }
}

/// The body: the bytes after the empty line, as many as the request asks
/// for, or all that are there if they are fewer.
pub open spec fn body_of(s: Seq<u8>, head: HeadView) -> Seq<u8> {
    let start = head.end + 2;
    let wanted = body_length(s, head);
    if wanted == 0 {
        Seq::empty()
    } else if start + wanted <= s.len() {
        s.subrange(start, start + wanted)
    } else {
        s.subrange(start, s.len() as int)
    }
}

/// The request that the bytes `s` hold.
pub open spec fn parsed(s: Seq<u8>) -> Result<RequestView, Error> {
    match head_of(s) {
        Some(head) => Ok(
            RequestView {
                method: head.method,
                path: head.path,
                headers: head.headers,
                body: body_of(s, head),
            },
        ),
        None => Err(Error::MalformedRequest),
    }
}

/// The structural facts about the head's end that the body rests on: an
/// empty line, if there is one, lies at or after `from` and is a whole
/// terminator.
pub proof fn lemma_head_end(s: Seq<u8>, from: int)
    requires
        0 <= from <= s.len(),
    ensures
        from <= head_end(s, from) <= s.len(),
        head_end(s, from) < s.len() ==> head_end(s, from) + 2 <= s.len(),
    decreases s.len() - from,
{
    lemma_find_crlf(s, from);
    let end = find_crlf(s, from);
    if from < end < s.len() {
        lemma_head_end(s, end + 2);
    }
}

/// Every parsed request has a path that begins with `/`.
pub proof fn lemma_parsed_wf(s: Seq<u8>)
    ensures
        parsed(s) matches Ok(r) ==> r.wf(),
{
    let end = find_crlf(s, 0);
    if end < s.len() {
        let line = s.subrange(0, end);
        let first = find_byte(line, SPACE, 0);
        lemma_find_byte(line, SPACE, 0);
        if first < line.len() {
            lemma_find_byte(line, SPACE, first + 1);
        }
    }
}

/// A request line with fewer than three fields, that is with fewer than
/// two spaces, is rejected, and so is input without a terminated line.
pub proof fn lemma_short_request_line(s: Seq<u8>)
    requires
        ({
            let line = s.subrange(0, find_crlf(s, 0));
            let first = find_byte(line, SPACE, 0);
            ||| find_crlf(s, 0) >= s.len()
            ||| first >= line.len()
            ||| find_byte(line, SPACE, first + 1) >= line.len()
        }),
    ensures
        parsed(s) == Err::<RequestView, Error>(Error::MalformedRequest),
{
}

/// All of a request but its body, as parsed.
#[derive(Clone, Debug, PartialEq, Eq)]
pub struct Head {
    pub method: Method,
    pub path: Vec<u8>,
    pub headers: Vec<HeaderLine>,
    pub end: usize,
}

impl View for Head {
    type V = HeadView;

    open spec fn view(&self) -> HeadView {
        HeadView {
            method: self.method,
            path: self.path@,
            headers: lines_view(self.headers@),
            end: self.end as int,
        }
    }
}

/// The method that the first field of a request line names.
pub fn parse_method(token: &[u8]) -> (m: Method)
    ensures
        m == method_of(token@),
{
    if equal(token, "GET".as_bytes()) {
        Method::Get
    } else if equal(token, "POST".as_bytes()) {
        Method::Post
    } else {
        Method::Other
    }
}

/// Splits a request line, without its terminator, into method and path;
/// `None` if it has fewer than three fields or its path does not begin
/// with `/`.
pub fn parse_request_line(line: &[u8]) -> (r: Option<(Method, Vec<u8>)>)
    ensures
        match r {
            Some((method, path)) => request_line(line@) == Some((method, path@)),
            None => request_line(line@) is None,
        },
{
    let first = index_of(line, SPACE, 0);
    if first >= line.len() {
        return None;
    }
    let second = index_of(line, SPACE, first + 1);
    if second >= line.len() || line[first + 1] != SLASH {
        return None;
    }
    let method = parse_method(slice_subrange(line, 0, first));
    let path = copy_range(line, first + 1, second);
    Some((method, path))
}

/// Splits a header line, without its terminator, at its first colon.
pub fn parse_header_line(line: &[u8]) -> (r: HeaderLine)
    ensures
        r@ == header_line(line@),
{
    let colon = index_of(line, COLON, 0);
    assert(line@.subrange(0, line@.len() as int) =~= line@);
    if colon < line.len() {
        HeaderLine::Field(
            Header {
                name: copy_range(line, 0, colon),
                value: copy_range(line, colon + 1, line.len()),
            },
        )
    } else {
        HeaderLine::Opaque(copy_range(line, 0, line.len()))
    }
}

/// Parses the request line and the header lines of `input`.
pub fn parse_head(input: &[u8]) -> (r: Option<Head>)
    ensures
        match r {
            Some(head) => head_of(input@) == Some(head@),
            None => head_of(input@) is None,
        },
        r matches Some(head) ==> head.end <= input@.len() && (head.end < input@.len()
            ==> head.end + 2 <= input@.len()),
{
    let first_end = index_of_crlf(input, 0);
    if first_end >= input.len() {
        return None;
    }
    let (method, path) = match parse_request_line(slice_subrange(input, 0, first_end)) {
        Some(fields) => fields,
        None => {
            return None;
        },
    };
    let start: usize = first_end + 2;
    let mut headers: Vec<HeaderLine> = Vec::new();
    let mut from: usize = start;
    let mut end: usize = index_of_crlf(input, from);
    assert(lines_view(headers@) =~= Seq::<HeaderLineView>::empty());
    while from < end && end < input.len()
        invariant
            start <= from <= end <= input.len(),
            end == find_crlf(input@, from as int),
            end < input.len() ==> end + 2 <= input.len(),
            headers_from(input@, start as int) == lines_view(headers@) + headers_from(
                input@,
                from as int,
            ),
            head_end(input@, start as int) == head_end(input@, from as int),
        decreases input.len() - from,
    {
        let ghost before = lines_view(headers@);
        let line = parse_header_line(slice_subrange(input, from, end));
        headers.push(line);
        proof {
            let rest = headers_from(input@, end + 2);
            assert(lines_view(headers@) =~= before.push(line@));
            assert(before + (seq![line@] + rest) =~= before.push(line@) + rest);
        }
        from = end + 2;
        end = index_of_crlf(input, from);
    }
    proof {
        lemma_head_end(input@, start as int);
    }
    Some(Head { method, path, headers, end })
}

/// Parses the bytes received on a connection into a request. It fails, with
/// `Error::MalformedRequest`, exactly when they do not begin with a
/// terminated, well-formed request line.
pub fn parse_request(input: &[u8]) -> (r: Result<Request, Error>)
    ensures
        match r {
            Ok(request) => parsed(input@) == Ok::<RequestView, Error>(request@),
            Err(e) => parsed(input@) == Err::<RequestView, Error>(e),
        },
        r matches Ok(request) ==> request@.wf(),
{
    let head = match parse_head(input) {
        Some(head) => head,
        None => {
            return Err(Error::MalformedRequest);
        },
    };
    proof {
        lemma_parsed_wf(input@);
    }
    let wanted = wanted_body(input, &head);
    let body = if wanted == 0 {
        Vec::new()
    } else {
        let total = input.len();
        let start = head.end + 2;
        if wanted <= total - start {
            copy_range(input, start, start + wanted)
        } else {
            copy_range(input, start, total)
        }
    };
    assert(body@ =~= body_of(input@, head@));
    Ok(Request { method: head.method, path: head.path, headers: head.headers, body })
}

/// The number of body bytes that the request with this head asks for.
fn wanted_body(input: &[u8], head: &Head) -> (n: usize)
    ensures
        n == body_length(input@, head@),
{
    match head.method {
        Method::Post => {
            if head.end < input.len() {
                match get_headers(head.headers.as_slice(), "Content-Length".as_bytes()) {
                    Some(value) => match parse_decimal(value) {
                        Some(n) => n,
                        None => 0,
                    },
                    None => 0,
                }
            } else {
                0
            }
        },
        _ => 0,
    }
}

/// Whether the bytes received so far are all that the request needs.
#[derive(Clone, Copy, Debug, PartialEq, Eq, Structural)]
pub enum Progress {
    /// The head is not complete: no empty line has come yet.
    NeedHead,
    /// The head is complete and this many bytes of the body are still to come.
    NeedBody { missing: usize },
    /// Nothing more is needed: the request is complete, or its request
    /// line is malformed and no further byte can mend it.
    Ready,
}

/// What the bytes `s`, received so far, still lack.
pub open spec fn progress_of(s: Seq<u8>) -> Progress {
    if find_crlf(s, 0) >= s.len() {
        Progress::NeedHead
    } else {
        match head_of(s) {
            None => Progress::Ready,
            Some(head) => if head.end >= s.len() {
                Progress::NeedHead
            } else if head.end + 2 + body_length(s, head) > s.len() {
                Progress::NeedBody {
                    missing: (head.end + 2 + body_length(s, head) - s.len()) as usize,
                }
            } else {
                Progress::Ready
            },
        }
    }
}

/// Tells the reader of a connection whether to go on reading. At the
/// peer's end of input the bytes are parsed as they are, whatever this says.
pub fn progress(input: &[u8]) -> (p: Progress)
    ensures
        p == progress_of(input@),
{
    let total = input.len();
    if index_of_crlf(input, 0) >= total {
        return Progress::NeedHead;
    }
    match parse_head(input) {
        None => Progress::Ready,
        Some(head) => {
            if head.end >= total {
                Progress::NeedHead
            } else {
                let wanted = wanted_body(input, &head);
                let have = total - (head.end + 2);
                if wanted > have {
                    Progress::NeedBody { missing: wanted - have }
                } else {
                    Progress::Ready
                }
            }
        },
    }
}

} // verus!
