//! The structured response and its serialization to wire bytes.

use vstd::prelude::*;
use vstd::string::StringSliceAdditionalSpecFns;
use crate::bytes::{CR, LF};
use crate::decimal::{decimal, format_decimal};
use crate::error::Error;
use crate::request::{Header, HeaderView};

verus! {

#[derive(Clone, Copy, Debug, PartialEq, Eq, Structural)]
pub enum Status {
    Success,
    Created,
    BadRequest,
    NotFound,
    InternalServerError,
}

impl Status {
    /// The status code and reason phrase as they stand in the status line.
    pub open spec fn line(self) -> Seq<u8> {
        match self {
            Status::Success => "200 OK".spec_bytes(),
            Status::Created => "201 Created".spec_bytes(),
            Status::BadRequest => "400 Bad Request".spec_bytes(),
            Status::NotFound => "404 Not Found".spec_bytes(),
            Status::InternalServerError => "500 Internal Server Error".spec_bytes(),
        }
    }

    pub open spec fn spec_code(self) -> u16 {
        match self {
            Status::Success => 200,
            Status::Created => 201,
            Status::BadRequest => 400,
            Status::NotFound => 404,
            Status::InternalServerError => 500,
        }
    }

    pub fn status_line(self) -> (r: &'static [u8])
        ensures
            r@ == self.line(),
    {
        match self {
            Status::Success => "200 OK".as_bytes(),
            Status::Created => "201 Created".as_bytes(),
            Status::BadRequest => "400 Bad Request".as_bytes(),
            Status::NotFound => "404 Not Found".as_bytes(),
            Status::InternalServerError => "500 Internal Server Error".as_bytes(),
        }
    }

    #[verifier::when_used_as_spec(spec_code)]
    pub fn code(self) -> (r: u16)
        ensures
            r == self.spec_code(),
    {
        match self {
            Status::Success => 200,
            Status::Created => 201,
            Status::BadRequest => 400,
            Status::NotFound => 404,
            Status::InternalServerError => 500,
        }
    }
}

#[derive(Clone, Debug, PartialEq, Eq)]
pub struct Response {
    pub status: Status,
    pub headers: Vec<Header>,
    pub body: Vec<u8>,
}

pub ghost struct ResponseView {
    pub status: Status,
    pub headers: Seq<HeaderView>,
    pub body: Seq<u8>,
}

/// The header fields as a sequence of field models.
pub open spec fn fields_view(fields: Seq<Header>) -> Seq<HeaderView> {
    Seq::new(fields.len(), |i: int| fields[i]@)
}

impl View for Response {
    type V = ResponseView;

    open spec fn view(&self) -> ResponseView {
        ResponseView {
            status: self.status,
            headers: fields_view(self.headers@),
            body: self.body@,
        }
    }
}

/// A response with a status line and nothing else.
pub open spec fn bare(status: Status) -> ResponseView {
    ResponseView { status, headers: Seq::empty(), body: Seq::empty() }
}

/// A `200 OK` response that carries `body`, described by a `Content-Type`
/// and a `Content-Length` field, in this order.
pub open spec fn content(content_type: Seq<u8>, body: Seq<u8>) -> ResponseView {
    ResponseView {
        status: Status::Success,
        headers: seq![
            HeaderView { name: "Content-Type".spec_bytes(), value: content_type },
            HeaderView { name: "Content-Length".spec_bytes(), value: decimal(body.len()) },
        ],
        body,
    }
}

/// The response that reports an error to the peer.
pub open spec fn error_reply(e: Error) -> ResponseView {
    bare(
        match e {
            Error::MalformedRequest => Status::BadRequest,
            Error::NotFound => Status::NotFound,
            Error::MissingHeader => Status::BadRequest,
            Error::Configuration => Status::InternalServerError,
            Error::Io => Status::InternalServerError,
        },
    )
}

pub open spec fn crlf() -> Seq<u8> {
    seq![CR, LF]
}

/// One header line on the wire: the name, a colon and a space, the value,
/// and a line terminator.
pub open spec fn field_line(field: HeaderView) -> Seq<u8> {
    field.name + ": ".spec_bytes() + field.value + crlf()
}

/// The header lines on the wire, in the order of the fields.
pub open spec fn header_block(fields: Seq<HeaderView>) -> Seq<u8>
    decreases fields.len(),
{
    if fields.len() == 0 {
        Seq::empty()
    } else {
        header_block(fields.drop_last()) + field_line(fields.last())
    }
}

/// The response on the wire: the status line, the header lines, an empty
/// line, the body.
pub open spec fn wire(response: ResponseView) -> Seq<u8> {
    "HTTP/1.1 ".spec_bytes() + response.status.line() + crlf() + header_block(response.headers)
        + crlf() + response.body
}

impl Response {
    pub fn bare(status: Status) -> (r: Response)
        ensures
            r@ == bare(status),
    {
        let r = Response { status, headers: Vec::new(), body: Vec::new() };
        assert(r@.headers =~= Seq::<HeaderView>::empty());
        r
    }

    pub fn content(content_type: &[u8], body: Vec<u8>) -> (r: Response)
        ensures
            r@ == content(content_type@, body@),
    {
        let mut headers: Vec<Header> = Vec::new();
        headers.push(
            Header {
                name: vstd::slice::slice_to_vec("Content-Type".as_bytes()),
                value: vstd::slice::slice_to_vec(content_type),
            },
        );
        headers.push(
            Header {
                name: vstd::slice::slice_to_vec("Content-Length".as_bytes()),
                value: format_decimal(body.len()),
            },
        );
        let r = Response { status: Status::Success, headers, body };
        assert(r@.headers =~= content(content_type@, body@).headers);
        r
    }

    /// The bytes to send for this response, to be written in one piece.
    pub fn serialize(&self) -> (out: Vec<u8>)
        ensures
            out@ == wire(self@),
    {
        let mut out: Vec<u8> = Vec::new();
        out.extend_from_slice("HTTP/1.1 ".as_bytes());
        out.extend_from_slice(self.status.status_line());
        out.push(CR);
        out.push(LF);
        let ghost start = out@;
        let ghost fields = fields_view(self.headers@);
        assert(start =~= "HTTP/1.1 ".spec_bytes() + self.status.line() + crlf());
        assert(fields.take(0) =~= Seq::<HeaderView>::empty());
        let mut i: usize = 0;
        while i < self.headers.len()
            invariant
                i <= self.headers.len(),
                fields == fields_view(self.headers@),
                out@ == start + header_block(fields.take(i as int)),
            decreases self.headers.len() - i,
        {
            let field = &self.headers[i];
            let ghost before = out@;
            out.extend_from_slice(field.name.as_slice());
            out.extend_from_slice(": ".as_bytes());
            out.extend_from_slice(field.value.as_slice());
            out.push(CR);
            out.push(LF);
            proof {
                assert(out@ =~= before + field_line(field@));
                assert(fields.take(i + 1).drop_last() =~= fields.take(i as int));
                assert(fields.take(i + 1).last() == field@);
            }
            i += 1;
        }
        assert(fields.take(i as int) =~= fields);
        out.push(CR);
        out.push(LF);
        out.extend_from_slice(self.body.as_slice());
        assert(out@ =~= wire(self@));
        out
    }
}

/// The response that reports `e` to the peer: a malformed request and a
/// missing header are the client's fault (400); an unservable file is not
/// found (404); a missing base directory and a failed write are the
/// server's (500).
pub fn error_response(e: Error) -> (r: Response)
    ensures
        r@ == error_reply(e),
{
    match e {
        Error::MalformedRequest => Response::bare(Status::BadRequest),
        Error::NotFound => Response::bare(Status::NotFound),
        Error::MissingHeader => Response::bare(Status::BadRequest),
        Error::Configuration => Response::bare(Status::InternalServerError),
        Error::Io => Response::bare(Status::InternalServerError),
    }
}

} // verus!
