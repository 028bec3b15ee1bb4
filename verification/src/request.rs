//! The structured request and the lookup of its headers.

use vstd::prelude::*;
use crate::bytes::{equal_ignoring_case, lower, same_ignoring_case, SLASH, SPACE};

verus! {

#[derive(Clone, Copy, Debug, PartialEq, Eq, Structural)]
pub enum Method {
    Get,
    Post,
    /// Any other method token; no route serves it.
    Other,
}

/// A header field: a name and the value as it stood after the colon.
#[derive(Clone, Debug, PartialEq, Eq)]
pub struct Header {
    pub name: Vec<u8>,
    pub value: Vec<u8>,
}

/// One line of a request's header section.
#[derive(Clone, Debug, PartialEq, Eq)]
pub enum HeaderLine {
    /// A line with a colon, split at the first one.
    Field(Header),
    /// A line without a colon. It is kept, and no lookup finds it.
    Opaque(Vec<u8>),
}

#[derive(Clone, Debug, PartialEq, Eq)]
pub struct Request {
    pub method: Method,
    pub path: Vec<u8>,
    pub headers: Vec<HeaderLine>,
    pub body: Vec<u8>,
}

pub ghost struct HeaderView {
    pub name: Seq<u8>,
    pub value: Seq<u8>,
}

pub ghost enum HeaderLineView {
    Field(HeaderView),
    Opaque(Seq<u8>),
}

pub ghost struct RequestView {
    pub method: Method,
    pub path: Seq<u8>,
    pub headers: Seq<HeaderLineView>,
    pub body: Seq<u8>,
}

impl View for Header {
    type V = HeaderView;

    open spec fn view(&self) -> HeaderView {
        HeaderView { name: self.name@, value: self.value@ }
    }
}

impl View for HeaderLine {
    type V = HeaderLineView;

    open spec fn view(&self) -> HeaderLineView {
        match self {
            HeaderLine::Field(h) => HeaderLineView::Field(h@),
            HeaderLine::Opaque(line) => HeaderLineView::Opaque(line@),
        }
    }
}

/// The header section as a sequence of line models.
pub open spec fn lines_view(lines: Seq<HeaderLine>) -> Seq<HeaderLineView> {
    Seq::new(lines.len(), |i: int| lines[i]@)
}

impl View for Request {
    type V = RequestView;

    open spec fn view(&self) -> RequestView {
        RequestView {
            method: self.method,
            path: self.path@,
            headers: lines_view(self.headers@),
            body: self.body@,
        }
    }
}

impl RequestView {
    /// What every parsed request satisfies: the path begins with `/`.
    pub open spec fn wf(self) -> bool {
        self.path.len() > 0 && self.path[0] == SLASH
    }
}

/// Whether `line` is a field whose name is `name` up to the case of ASCII
/// letters.
pub open spec fn names(line: HeaderLineView, name: Seq<u8>) -> bool {
    match line {
        HeaderLineView::Field(h) => same_ignoring_case(h.name, name),
        HeaderLineView::Opaque(_) => false,
    }
}

/// Index of the first line at or after `from` that `names` the header;
/// `headers.len()` if there is none.
pub open spec fn find_header(headers: Seq<HeaderLineView>, name: Seq<u8>, from: int) -> int
    decreases headers.len() - from,
{
    if from >= headers.len() {
        headers.len() as int
    } else if names(headers[from], name) {
        from
    } else {
        find_header(headers, name, from + 1)
    }
}

/// A field value without the one space that by convention follows the colon.
pub open spec fn trimmed(value: Seq<u8>) -> Seq<u8> {
    if value.len() > 0 && value[0] == SPACE {
        value.subrange(1, value.len() as int)
    } else {
        value
    }
}

/// The value of the first field named `name`, trimmed; `None` if no field
/// has that name.
pub open spec fn lookup(headers: Seq<HeaderLineView>, name: Seq<u8>) -> Option<Seq<u8>> {
    let at = find_header(headers, name, 0);
    if at < headers.len() {
        Some(trimmed(headers[at]->Field_0.value))
    } else {
        None
    }
}

/// `find_header` returns the least index at or after `from` of a line that
/// names the header.
pub proof fn lemma_find_header(headers: Seq<HeaderLineView>, name: Seq<u8>, from: int)
    requires
        0 <= from <= headers.len(),
    ensures
        from <= find_header(headers, name, from) <= headers.len(),
        find_header(headers, name, from) < headers.len() ==> names(
            headers[find_header(headers, name, from)],
            name,
        ),
        forall|j: int| from <= j < find_header(headers, name, from) ==> !names(headers[j], name),
    decreases headers.len() - from,
{
    if from < headers.len() && !names(headers[from], name) {
        lemma_find_header(headers, name, from + 1);
    }
}

/// Header lookup ignores the case of ASCII letters in the name asked for:
/// two names that differ in case only find the same value.
pub proof fn lemma_lookup_ignores_case(headers: Seq<HeaderLineView>, a: Seq<u8>, b: Seq<u8>)
    requires
        same_ignoring_case(a, b),
    ensures
        lookup(headers, a) == lookup(headers, b),
{
    lemma_find_header_ignores_case(headers, a, b, 0);
}

/// Header lookup returns the first match: a field that `names` the header,
/// with no such field before it, is the one whose value is found. The
/// name of the field may differ in case from the name asked for.
pub proof fn lemma_lookup_finds(headers: Seq<HeaderLineView>, name: Seq<u8>, at: int)
    requires
        0 <= at < headers.len(),
        names(headers[at], name),
        forall|j: int| 0 <= j < at ==> !names(headers[j], name),
    ensures
        lookup(headers, name) == Some(trimmed(headers[at]->Field_0.value)),
{
    lemma_find_header_is(headers, name, 0, at);
}

/// Header lookup finds nothing exactly when no field names the header.
pub proof fn lemma_lookup_none(headers: Seq<HeaderLineView>, name: Seq<u8>)
    ensures
        lookup(headers, name) is None <==> forall|j: int|
            0 <= j < headers.len() ==> !names(headers[j], name),
{
    lemma_find_header(headers, name, 0);
}

proof fn lemma_find_header_is(headers: Seq<HeaderLineView>, name: Seq<u8>, from: int, at: int)
    requires
        0 <= from <= at < headers.len(),
        names(headers[at], name),
        forall|j: int| from <= j < at ==> !names(headers[j], name),
    ensures
        find_header(headers, name, from) == at,
    decreases at - from,
{
    if from < at {
        lemma_find_header_is(headers, name, from + 1, at);
    }
}

proof fn lemma_find_header_ignores_case(
    headers: Seq<HeaderLineView>,
    a: Seq<u8>,
    b: Seq<u8>,
    from: int,
)
    requires
        same_ignoring_case(a, b),
        0 <= from,
    ensures
        find_header(headers, a, from) == find_header(headers, b, from),
    decreases headers.len() - from,
{
    if from < headers.len() {
        match headers[from] {
            HeaderLineView::Field(h) => {
                assert(same_ignoring_case(h.name, a) == same_ignoring_case(h.name, b)) by {
                    if h.name.len() == a.len() {
                        assert forall|i: int| 0 <= i < a.len() implies (lower(h.name[i]) == lower(
                            a[i],
                        )) == (lower(h.name[i]) == lower(b[i])) by {
                            assert(lower(a[i]) == lower(b[i]));
                        }
                    }
                }
            },
            HeaderLineView::Opaque(_) => {},
        }
        lemma_find_header_ignores_case(headers, a, b, from + 1);
    }
}

/// Looks a header up by name, ignoring the case of ASCII letters: the
/// value of the first field with that name, without the single space that
/// may lead it.
pub fn get_headers<'a>(headers: &'a [HeaderLine], header: &[u8]) -> (r: Option<&'a [u8]>)
    ensures
        match r {
            Some(value) => lookup(lines_view(headers@), header@) == Some(value@),
            None => lookup(lines_view(headers@), header@) is None,
        },
{
    let ghost model = lines_view(headers@);
    let mut i: usize = 0;
    while i < headers.len()
        invariant
            i <= headers.len(),
            model == lines_view(headers@),
            find_header(model, header@, 0) == find_header(model, header@, i as int),
        decreases headers.len() - i,
    {
        match &headers[i] {
            HeaderLine::Field(h) => {
                if equal_ignoring_case(h.name.as_slice(), header) {
                    let value = h.value.as_slice();
                    if value.len() > 0 && value[0] == SPACE {
                        return Some(vstd::slice::slice_subrange(value, 1, value.len()));
                    } else {
                        return Some(value);
                    }
                }
            },
            HeaderLine::Opaque(_) => {},
        }
        i += 1;
    }
    None
}

} // verus!
