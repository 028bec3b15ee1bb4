//! The file routes: which names may be served, where they lie below the
//! base directory, and what each outcome of the file system is answered
//! with. Reading and writing the files is the caller's part.

use vstd::prelude::*;
use vstd::slice::slice_to_vec;
use vstd::string::StringSliceAdditionalSpecFns;
use crate::bytes::{DOT, SLASH};
use crate::error::Error;
use crate::request::Method;
use crate::response::{bare, content, Response, ResponseView, Status};

verus! {

/// What is left to do for a request.
#[derive(Clone, Debug, PartialEq, Eq)]
pub enum Step {
    /// Send this response.
    Reply(Response),
    /// Read the file at `path` and answer with `file_read_response`.
    ReadFile { path: Vec<u8> },
    /// Create or truncate the file at `path`, write `contents` to it, and
    /// answer with `file_write_response`.
    WriteFile { path: Vec<u8>, contents: Vec<u8> },
}

pub ghost enum StepView {
    Reply(ResponseView),
    ReadFile { path: Seq<u8> },
    WriteFile { path: Seq<u8>, contents: Seq<u8> },
}

impl View for Step {
    type V = StepView;

    open spec fn view(&self) -> StepView {
        match self {
            Step::Reply(response) => StepView::Reply(response@),
            Step::ReadFile { path } => StepView::ReadFile { path: path@ },
            Step::WriteFile { path, contents } => StepView::WriteFile {
                path: path@,
                contents: contents@,
            },
        }
    }
}

/// Whether a path segment `..` starts at index `i` of `path`: two dots with
/// a slash or the path's start before them and a slash or the path's end
/// after them.
pub open spec fn parent_segment_at(path: Seq<u8>, i: int) -> bool {
    &&& 0 <= i && i + 1 < path.len()
    &&& path[i] == DOT && path[i + 1] == DOT
    &&& i == 0 || path[i - 1] == SLASH
    &&& i + 2 == path.len() || path[i + 2] == SLASH
}

/// The file names that are served: relative ones without a `..` segment,
/// so that the file named lies below the base directory.
pub open spec fn contained(name: Seq<u8>) -> bool {
    &&& name.len() == 0 || name[0] != SLASH
    &&& forall|i: int| !parent_segment_at(name, i)
}

/// The path of the file `name` below the directory `dir`: the two joined
/// by one slash, unless `dir` is empty or brings its own.
pub open spec fn joined(dir: Seq<u8>, name: Seq<u8>) -> Seq<u8> {
    if dir.len() == 0 || dir.last() == SLASH {
        dir + name
    } else {
        dir.push(SLASH) + name
    }
}

/// What a request on the file route leads to. A method other than `GET`
/// and `POST` is not served; without a base directory no file is; a name
/// that would leave the base directory is not found.
pub open spec fn file_step(
    method: Method,
    name: Seq<u8>,
    body: Seq<u8>,
    base: Option<Seq<u8>>,
) -> Result<StepView, Error> {
    match method {
        Method::Other => Ok(StepView::Reply(bare(Status::NotFound))),
        _ => match base {
            None => Err(Error::Configuration),
            Some(dir) => if !contained(name) {
                Err(Error::NotFound)
            } else if method == Method::Get {
                Ok(StepView::ReadFile { path: joined(dir, name) })
            } else {
                Ok(StepView::WriteFile { path: joined(dir, name), contents: body })
            },
        },
    }
}

/// The answer to a `GET` once the file was read, or could not be.
pub open spec fn read_reply(contents: Option<Seq<u8>>) -> ResponseView {
    match contents {
        Some(bytes) => content("application/octet-stream".spec_bytes(), bytes),
        None => bare(Status::NotFound),
    }
}

/// A contained name joined to a directory adds no `..` segment to it: the
/// path begins with the directory, and no such segment starts after it.
pub proof fn lemma_joined_stays_below(dir: Seq<u8>, name: Seq<u8>)
    requires
        contained(name),
    ensures
        dir.is_prefix_of(joined(dir, name)),
        forall|i: int| dir.len() <= i ==> !parent_segment_at(joined(dir, name), i),
{
    let path = joined(dir, name);
    let offset = path.len() - name.len();
    assert(path.subrange(0, dir.len() as int) =~= dir);
    assert forall|i: int| dir.len() <= i implies !parent_segment_at(path, i) by {
        if parent_segment_at(path, i) {
            if i < offset {
                assert(path[i] == SLASH);
            } else {
                let k = i - offset;
                assert(path[i] == name[k]);
                assert(path[i + 1] == name[k + 1]);
                if k > 0 {
                    assert(path[i - 1] == name[k - 1]);
                } else if i > 0 {
                    assert(path[i - 1] == SLASH);
                }
                if i + 2 < path.len() {
                    assert(path[i + 2] == name[k + 2]);
                }
                assert(parent_segment_at(name, k));
            }
        }
    }
}

/// Writing a file and reading it back name the same path, and the
/// answer to the read carries the bytes that the write was given: if the
/// file system returns what was written, a `POST` of `body` followed by a
/// `GET` of the same name answers `200 OK` with exactly `body`.
pub proof fn lemma_file_round_trip(name: Seq<u8>, body: Seq<u8>, dir: Seq<u8>, other: Seq<u8>)
    requires
        contained(name),
    ensures
        file_step(Method::Post, name, body, Some(dir)) == Ok::<StepView, Error>(
            StepView::WriteFile { path: joined(dir, name), contents: body },
        ),
        file_step(Method::Get, name, other, Some(dir)) == Ok::<StepView, Error>(
            StepView::ReadFile { path: joined(dir, name) },
        ),
        read_reply(Some(body)).status == Status::Success,
        read_reply(Some(body)).body == body,
{
}

/// A file that cannot be read is answered with `404 Not Found` and an
/// empty body.
pub proof fn lemma_missing_file()
    ensures
        read_reply(None) == bare(Status::NotFound),
        read_reply(None).status.spec_code() == 404,
        read_reply(None).body.len() == 0,
        read_reply(None).headers.len() == 0,
{
}

/// Whether the file `name` may be served.
pub fn is_contained(name: &[u8]) -> (r: bool)
    ensures
        r == contained(name@),
{
    let n = name.len();
    if n > 0 && name[0] == SLASH {
        return false;
    }
    let mut i: usize = 0;
    while i < n
        invariant
            i <= n,
            n == name@.len(),
            forall|j: int| j < i ==> !parent_segment_at(name@, j),
        decreases n - i,
    {
        if name[i] == DOT && i + 1 < n && name[i + 1] == DOT && (i == 0 || name[i - 1] == SLASH)
            && (i + 2 == n || name[i + 2] == SLASH) {
            assert(parent_segment_at(name@, i as int));
            return false;
        }
        i += 1;
    }
    true
}

/// The path of the file `name` below the directory `dir`.
pub fn join(dir: &[u8], name: &[u8]) -> (path: Vec<u8>)
    ensures
        path@ == joined(dir@, name@),
{
    let mut path = slice_to_vec(dir);
    if dir.len() > 0 && dir[dir.len() - 1] != SLASH {
        path.push(SLASH);
    }
    path.extend_from_slice(name);
    path
}

/// Decides what a request on the file route leads to: a reply at once, or
/// a file to read or to write at the path of `name` below `base`.
pub fn files(method: Method, name: &[u8], body: &[u8], base: Option<&[u8]>) -> (r: Result<
    Step,
    Error,
>)
    ensures
        match r {
            Ok(step) => file_step(method, name@, body@, base_view(base)) == Ok::<StepView, Error>(
                step@,
            ),
            Err(e) => file_step(method, name@, body@, base_view(base)) == Err::<StepView, Error>(e),
        },
{
    match method {
        Method::Other => Ok(Step::Reply(Response::bare(Status::NotFound))),
        _ => match base {
            None => Err(Error::Configuration),
            Some(dir) => {
                if !is_contained(name) {
                    Err(Error::NotFound)
                } else {
                    match method {
                        Method::Get => Ok(Step::ReadFile { path: join(dir, name) }),
                        _ => Ok(
                            Step::WriteFile { path: join(dir, name), contents: slice_to_vec(body) },
                        ),
                    }
                }
            },
        },
    }
}

/// The base directory as the contracts see it.
pub open spec fn base_view(base: Option<&[u8]>) -> Option<Seq<u8>> {
    match base {
        Some(dir) => Some(dir@),
        None => None,
    }
}

/// The answer to a `GET` on the file route: the file's bytes as they were
/// read, or `404 Not Found` whatever kept them from being read.
pub fn file_read_response(contents: Option<Vec<u8>>) -> (r: Response)
    ensures
        r@ == read_reply(
            match contents {
                Some(bytes) => Some(bytes@),
                None => None,
            },
        ),
{
    match contents {
        Some(bytes) => Response::content("application/octet-stream".as_bytes(), bytes),
        None => Response::bare(Status::NotFound),
    }
}

/// The answer to a `POST` on the file route: `201 Created` once the file
/// is written, the `Io` error if it could not be.
pub fn file_write_response(written: bool) -> (r: Result<Response, Error>)
    ensures
        written ==> r is Ok && r->Ok_0@ == bare(Status::Created),
        !written ==> r == Err::<Response, Error>(Error::Io),
{
    if written {
        Ok(Response::bare(Status::Created))
    } else {
        Err(Error::Io)
    }
}

} // verus!
