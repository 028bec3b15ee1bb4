//! Whole exchanges, from the bytes received to the answer: what the parser
//! and the handlers state together.

use vstd::prelude::*;
use vstd::string::StringSliceAdditionalSpecFns;
use crate::bytes::{
    crlf_at, find_crlf, lemma_find_byte_is, lemma_find_crlf, lemma_find_crlf_is, SLASH, SPACE,
};
use crate::files::StepView;
use crate::handler::{answer, echo_reply, lemma_echo, lemma_root};
use crate::parser::{
    body_length, body_of, head_end, head_of, headers_from, lemma_head_end, method_of, parsed,
    progress_of, Progress,
};
use crate::response::{bare, crlf, Status};
use crate::route::lemma_patterns;

verus! {

/// A byte string without a space.
pub open spec fn spaceless(s: Seq<u8>) -> bool {
    forall|i: int| 0 <= i < s.len() ==> s[i] != SPACE
}

/// A byte string in which no line terminator starts.
pub open spec fn unbroken(s: Seq<u8>) -> bool {
    forall|i: int| !crlf_at(s, i)
}

/// The request line of `method` and `path` on the wire, with its
/// terminator.
pub open spec fn request_line_bytes(method: Seq<u8>, path: Seq<u8>) -> Seq<u8> {
    method + seq![SPACE] + path + " HTTP/1.1".spec_bytes() + crlf()
}

/// The protocol version as it follows the path, byte by byte.
pub proof fn lemma_version()
    ensures
        " HTTP/1.1".spec_bytes() == seq![32u8, 72, 84, 84, 80, 47, 49, 46, 49],
        "GET".spec_bytes() == seq![71u8, 69, 84],
{
    broadcast use vstd::string::is_ascii_spec_bytes;

    reveal_strlit(" HTTP/1.1");
    reveal_strlit("GET");
    assert(vstd::string::is_ascii(" HTTP/1.1"));
    assert(vstd::string::is_ascii("GET"));
    assert(" HTTP/1.1".spec_bytes() =~= seq![32u8, 72, 84, 84, 80, 47, 49, 46, 49]);
    assert("GET".spec_bytes() =~= seq![71u8, 69, 84]);
}

/// A request line is read back as it was written: input that begins with
/// the line of `method` and `path` parses to a request with that method
/// and that path, whatever follows the line.
pub proof fn lemma_request_line_round_trip(method: Seq<u8>, path: Seq<u8>, rest: Seq<u8>)
    requires
        spaceless(method),
        unbroken(method),
        spaceless(path),
        unbroken(path),
        path.len() > 0,
        path[0] == SLASH,
    ensures
        parsed(request_line_bytes(method, path) + rest) matches Ok(request) && request.method
            == method_of(method) && request.path == path,
{
    lemma_version();
    let version = " HTTP/1.1".spec_bytes();
    let line = method + seq![SPACE] + path + version;
    let input = request_line_bytes(method, path) + rest;
    let m = method.len() as int;
    let p = path.len() as int;
    assert(line.len() == m + 1 + p + 9);
    assert forall|j: int| 0 <= j < line.len() implies !crlf_at(input, j) by {
        if crlf_at(input, j) {
            if j + 1 < m {
                assert(crlf_at(method, j));
            } else if m < j && j + 1 < m + 1 + p {
                assert(crlf_at(path, j - m - 1));
            }
        }
    }
    assert(crlf_at(input, line.len() as int));
    lemma_find_crlf_is(input, 0, line.len() as int);
    assert(input.subrange(0, line.len() as int) =~= line);
    assert forall|j: int| 0 <= j < m implies line[j] != SPACE by {
        assert(line[j] == method[j]);
    }
    lemma_find_byte_is(line, SPACE, 0, m);
    assert forall|j: int| m + 1 <= j < m + 1 + p implies line[j] != SPACE by {
        assert(line[j] == path[j - m - 1]);
    }
    lemma_find_byte_is(line, SPACE, m + 1, m + 1 + p);
    assert(line[m + 1] == path[0]);
    assert(line.subrange(0, m) =~= method);
    assert(line.subrange(m + 1, m + 1 + p) =~= path);
}

/// `GET /echo/` followed by `text` is answered `200 OK` with a body of
/// exactly `text`, whatever headers follow. The text is part of the
/// request line, so it holds no space and no line terminator.
pub proof fn lemma_echo_on_the_wire(text: Seq<u8>, rest: Seq<u8>, base: Option<Seq<u8>>)
    requires
        spaceless(text),
        unbroken(text),
    ensures
        answer(
            request_line_bytes("GET".spec_bytes(), "/echo/".spec_bytes() + text) + rest,
            base,
        ) == StepView::Reply(echo_reply(text)),
        echo_reply(text).status == Status::Success,
        echo_reply(text).body == text,
{
    lemma_version();
    lemma_patterns();
    let prefix = "/echo/".spec_bytes();
    let path = prefix + text;
    assert forall|i: int| 0 <= i < path.len() implies path[i] != SPACE by {
        if i >= prefix.len() {
            assert(path[i] == text[i - prefix.len()]);
        }
    }
    assert forall|i: int| !crlf_at(path, i) by {
        if crlf_at(path, i) {
            if i >= prefix.len() {
                assert(crlf_at(text, i - prefix.len()));
            }
        }
    }
    lemma_request_line_round_trip("GET".spec_bytes(), path, rest);
    let request = parsed(request_line_bytes("GET".spec_bytes(), path) + rest)->Ok_0;
    lemma_echo(request, text, base);
}

/// `GET /` is answered `200 OK` with an empty body, whatever headers
/// follow the request line.
pub proof fn lemma_root_on_the_wire(rest: Seq<u8>, base: Option<Seq<u8>>)
    ensures
        answer(request_line_bytes("GET".spec_bytes(), "/".spec_bytes()) + rest, base)
            == StepView::Reply(bare(Status::Success)),
{
    lemma_version();
    lemma_patterns();
    lemma_request_line_round_trip("GET".spec_bytes(), "/".spec_bytes(), rest);
    let request = parsed(request_line_bytes("GET".spec_bytes(), "/".spec_bytes()) + rest)->Ok_0;
    lemma_root(request, base);
}

/// Bytes that follow a line terminator do not move it.
proof fn lemma_find_crlf_extends(s: Seq<u8>, more: Seq<u8>, from: int)
    requires
        0 <= from <= s.len(),
        find_crlf(s, from) < s.len(),
    ensures
        find_crlf(s + more, from) == find_crlf(s, from),
{
    lemma_find_crlf(s, from);
    let at = find_crlf(s, from);
    let longer = s + more;
    assert forall|j: int| from <= j < at implies !crlf_at(longer, j) by {
        assert(longer[j] == s[j]);
        assert(longer[j + 1] == s[j + 1]);
        assert(!crlf_at(s, j));
    }
    assert(longer[at] == s[at] && longer[at + 1] == s[at + 1]);
    lemma_find_crlf_is(longer, from, at);
}

/// Bytes that follow the empty line change neither the header lines nor
/// the place of the empty line.
proof fn lemma_head_extends(s: Seq<u8>, more: Seq<u8>, from: int)
    requires
        0 <= from <= s.len(),
        head_end(s, from) < s.len(),
    ensures
        head_end(s + more, from) == head_end(s, from),
        headers_from(s + more, from) == headers_from(s, from),
    decreases s.len() - from,
{
    lemma_find_crlf(s, from);
    let end = find_crlf(s, from);
    lemma_find_crlf_extends(s, more, from);
    if from < end {
        lemma_head_extends(s, more, end + 2);
        assert((s + more).subrange(from, end) =~= s.subrange(from, end));
    }
}

/// Once nothing more is needed, nothing more is read: bytes that arrive
/// after a request is complete, or after its request line proved
/// malformed, change neither the request nor the answer. One connection
/// carries one request.
pub proof fn lemma_ready_is_final(s: Seq<u8>, more: Seq<u8>, base: Option<Seq<u8>>)
    requires
        progress_of(s) == Progress::Ready,
    ensures
        parsed(s + more) == parsed(s),
        progress_of(s + more) == Progress::Ready,
        answer(s + more, base) == answer(s, base),
{
    let longer = s + more;
    let end = find_crlf(s, 0);
    lemma_find_crlf(s, 0);
    lemma_find_crlf_extends(s, more, 0);
    assert(longer.subrange(0, end) =~= s.subrange(0, end));
    if head_of(s) is Some {
        let head = head_of(s)->Some_0;
        lemma_head_extends(s, more, end + 2);
        lemma_head_end(s, end + 2);
        assert(head_of(longer) == Some(head));
        let start = head.end + 2;
        let wanted = body_length(s, head);
        assert(body_length(longer, head) == wanted);
        if wanted > 0 {
            assert(longer.subrange(start, start + wanted) =~= s.subrange(start, start + wanted));
        }
        assert(body_of(longer, head) == body_of(s, head));
    }
}

} // verus!
