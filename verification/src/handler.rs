//! From a request to what is left to do for it: one handler per route, and
//! the policy that turns every error into a response.

use vstd::prelude::*;
use vstd::slice::{slice_subrange, slice_to_vec};
use vstd::string::StringSliceAdditionalSpecFns;
use crate::error::Error;
use crate::files::{base_view, file_step, files, Step, StepView};
use crate::parser::{parse_request, parsed};
use crate::request::{
    get_headers, lines_view, lookup, HeaderLine, HeaderLineView, Method, Request, RequestView,
};
use crate::response::{bare, content, error_reply, error_response, Response, ResponseView, Status};
use crate::route::{lemma_patterns, lemma_precedence, route, routes, select, Handler};
use crate::decimal::{decimal_value, lemma_decimal_round_trip};

verus! {

/// The answer of the echo route: the text, as plain text.
pub open spec fn echo_reply(text: Seq<u8>) -> ResponseView {
    content("text/plain".spec_bytes(), text)
}

/// The answer of the user-agent route: the value of the `User-Agent`
/// header, as plain text; without that header, the `MissingHeader` error.
pub open spec fn user_agent_reply(headers: Seq<HeaderLineView>) -> Result<ResponseView, Error> {
    match lookup(headers, "User-Agent".spec_bytes()) {
        Some(value) => Ok(content("text/plain".spec_bytes(), value)),
        None => Err(Error::MissingHeader),
    }
}

/// What the request leads to: the route table picks the handler, and the
/// echo and file handlers work on the part of the path after the matched
/// prefix.
pub open spec fn handled(request: RequestView, base: Option<Seq<u8>>) -> Result<StepView, Error> {
    let chosen = select(routes(), request.path);
    let rest = request.path.subrange(chosen.matched as int, request.path.len() as int);
    match chosen.handler {
        Handler::Root => Ok(StepView::Reply(bare(Status::Success))),
        Handler::Echo => Ok(StepView::Reply(echo_reply(rest))),
        Handler::UserAgent => match user_agent_reply(request.headers) {
            Ok(response) => Ok(StepView::Reply(response)),
            Err(e) => Err(e),
        },
        Handler::Files => file_step(request.method, rest, request.body, base),
        Handler::NotFound => Ok(StepView::Reply(bare(Status::NotFound))),
    }
}

/// What the bytes of a connection lead to. No error leaves the connection:
/// a parse error and a handler error are answered with their response.
pub open spec fn answer(input: Seq<u8>, base: Option<Seq<u8>>) -> StepView {
    match parsed(input) {
        Ok(request) => match handled(request, base) {
            Ok(step) => step,
            Err(e) => StepView::Reply(error_reply(e)),
        },
        Err(e) => StepView::Reply(error_reply(e)),
    }
}

/// A request for `/echo/` followed by `text` is answered `200 OK` with a
/// body of exactly `text` and a `Content-Length` that is the numeral of its
/// length in bytes, for every `text`, the empty one too.
pub proof fn lemma_echo(request: RequestView, text: Seq<u8>, base: Option<Seq<u8>>)
    requires
        request.path == "/echo/".spec_bytes() + text,
    ensures
        handled(request, base) == Ok::<StepView, Error>(StepView::Reply(echo_reply(text))),
        echo_reply(text).status == Status::Success,
        echo_reply(text).body == text,
        echo_reply(text).headers.len() == 2,
        echo_reply(text).headers[1].name == "Content-Length".spec_bytes(),
        decimal_value(echo_reply(text).headers[1].value) == Some(text.len()),
{
    let prefix = "/echo/".spec_bytes();
    lemma_precedence(request.path);
    lemma_patterns();
    lemma_decimal_round_trip(text.len());
    assert(request.path.subrange(0, prefix.len() as int) =~= prefix);
    assert(request.path != "/".spec_bytes());
    assert(request.path.subrange(prefix.len() as int, request.path.len() as int) =~= text);
}

/// A request for `/` is answered `200 OK` with no header and an empty
/// body, whatever its method, its headers and its body are.
pub proof fn lemma_root(request: RequestView, base: Option<Seq<u8>>)
    requires
        request.path == "/".spec_bytes(),
    ensures
        handled(request, base) == Ok::<StepView, Error>(StepView::Reply(bare(Status::Success))),
        bare(Status::Success).status.spec_code() == 200,
        bare(Status::Success).body.len() == 0,
{
    lemma_precedence(request.path);
}

/// A path that none of the routes accepts is answered `404 Not Found`
/// with an empty body, and so is a method other than `GET` and `POST` on
/// the file route.
pub proof fn lemma_not_found(request: RequestView, base: Option<Seq<u8>>)
    requires
        ({
            &&& request.path != "/".spec_bytes()
            &&& !"/echo/".spec_bytes().is_prefix_of(request.path)
            &&& !"/user-agent".spec_bytes().is_prefix_of(request.path)
            &&& !"/files/".spec_bytes().is_prefix_of(request.path)
        }) || ({
            &&& "/files/".spec_bytes().is_prefix_of(request.path)
            &&& request.method == Method::Other
        }),
    ensures
        handled(request, base) == Ok::<StepView, Error>(StepView::Reply(bare(Status::NotFound))),
        bare(Status::NotFound).status.spec_code() == 404,
        bare(Status::NotFound).body.len() == 0,
{
    lemma_precedence(request.path);
    lemma_patterns();
    if "/files/".spec_bytes().is_prefix_of(request.path) {
        assert(request.path[1] == 102);
        if "/echo/".spec_bytes().is_prefix_of(request.path) {
            assert(request.path[1] == 101);
        }
        if "/user-agent".spec_bytes().is_prefix_of(request.path) {
            assert(request.path[1] == 117);
        }
    }
}

/// Whatever the bytes of a connection are, the answer is either a reply
/// or a file operation: no input makes the server fail, and a request
/// that cannot be parsed is answered `400 Bad Request`.
pub proof fn lemma_malformed_is_answered(input: Seq<u8>, base: Option<Seq<u8>>)
    requires
        parsed(input) is Err,
    ensures
        answer(input, base) == StepView::Reply(bare(Status::BadRequest)),
{
}

/// The root route: `200 OK` and nothing else, whatever was sent.
pub fn root() -> (r: Response)
    ensures
        r@ == bare(Status::Success),
{
    Response::bare(Status::Success)
}

/// The echo route: `200 OK` with `text` as the body, byte for byte.
pub fn echo(text: &[u8]) -> (r: Response)
    ensures
        r@ == echo_reply(text@),
{
    Response::content("text/plain".as_bytes(), slice_to_vec(text))
}

/// The user-agent route: `200 OK` with the value of the `User-Agent`
/// header as the body, or `Error::MissingHeader` if the request has none.
pub fn user_agent(headers: &[HeaderLine]) -> (r: Result<Response, Error>)
    ensures
        match r {
            Ok(response) => user_agent_reply(lines_view(headers@)) == Ok::<ResponseView, Error>(
                response@,
            ),
            Err(e) => user_agent_reply(lines_view(headers@)) == Err::<ResponseView, Error>(e),
        },
{
    match get_headers(headers, "User-Agent".as_bytes()) {
        Some(value) => Ok(Response::content("text/plain".as_bytes(), slice_to_vec(value))),
        None => Err(Error::MissingHeader),
    }
}

/// The terminal route: `404 Not Found` and nothing else.
pub fn not_found() -> (r: Response)
    ensures
        r@ == bare(Status::NotFound),
{
    Response::bare(Status::NotFound)
}

/// Dispatches `request` to the handler of the first route that accepts its
/// path and returns what that handler decides.
pub fn handle(request: &Request, base_directory: Option<&[u8]>) -> (r: Result<Step, Error>)
    ensures
        match r {
            Ok(step) => handled(request@, base_view(base_directory)) == Ok::<StepView, Error>(
                step@,
            ),
            Err(e) => handled(request@, base_view(base_directory)) == Err::<StepView, Error>(e),
        },
{
    let path = request.path.as_slice();
    let chosen = route(path);
    let rest = slice_subrange(path, chosen.matched, path.len());
    match chosen.handler {
        Handler::Root => Ok(Step::Reply(root())),
        Handler::Echo => Ok(Step::Reply(echo(rest))),
        Handler::UserAgent => match user_agent(request.headers.as_slice()) {
            Ok(response) => Ok(Step::Reply(response)),
            Err(e) => Err(e),
        },
        Handler::Files => files(request.method, rest, request.body.as_slice(), base_directory),
        Handler::NotFound => Ok(Step::Reply(not_found())),
    }
}

/// The response to send for the outcome of a handler or of a file
/// operation: the response itself, or the one that reports the error.
pub fn settle(outcome: Result<Response, Error>) -> (r: Response)
    ensures
        r@ == match outcome {
            Ok(response) => response@,
            Err(e) => error_reply(e),
        },
{
    match outcome {
        Ok(response) => response,
        Err(e) => error_response(e),
    }
}

/// Serves the bytes received on one connection: parses them, dispatches
/// the request, and returns what is left to do. Every error is answered
/// on its own connection.
pub fn respond(input: &[u8], base_directory: Option<&[u8]>) -> (step: Step)
    ensures
        step@ == answer(input@, base_view(base_directory)),
{
    match parse_request(input) {
        Ok(request) => match handle(&request, base_directory) {
            Ok(step) => step,
            Err(e) => Step::Reply(error_response(e)),
        },
        Err(e) => Step::Reply(error_response(e)),
    }
}

} // verus!
