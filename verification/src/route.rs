//! The route table: an ordered list of path rules, checked top to bottom.

use vstd::prelude::*;
use vstd::string::StringSliceAdditionalSpecFns;
use crate::bytes::{equal, starts_with};

verus! {

/// A rule on the request path. Both kinds compare bytes, nothing else.
#[derive(Clone, Copy, Debug, PartialEq, Eq)]
pub enum Matcher {
    /// The path is exactly these bytes.
    Exact(&'static [u8]),
    /// The path begins with these bytes.
    Prefix(&'static [u8]),
}

/// Which handler answers a request.
#[derive(Clone, Copy, Debug, PartialEq, Eq, Structural)]
pub enum Handler {
    Root,
    Echo,
    UserAgent,
    Files,
    /// The terminal route: no rule accepted the path.
    NotFound,
}

#[derive(Clone, Copy, Debug, PartialEq, Eq)]
pub struct Route {
    pub matcher: Matcher,
    pub handler: Handler,
}

/// The handler chosen for a path and the number of leading bytes of the
/// path that the chosen rule matched.
#[derive(Clone, Copy, Debug, PartialEq, Eq, Structural)]
pub struct Selection {
    pub handler: Handler,
    pub matched: usize,
}

pub ghost enum MatcherView {
    Exact(Seq<u8>),
    Prefix(Seq<u8>),
}

pub ghost struct RouteView {
    pub matcher: MatcherView,
    pub handler: Handler,
}

impl View for Matcher {
    type V = MatcherView;

    open spec fn view(&self) -> MatcherView {
        match self {
            Matcher::Exact(bytes) => MatcherView::Exact(bytes@),
            Matcher::Prefix(bytes) => MatcherView::Prefix(bytes@),
        }
    }
}

impl View for Route {
    type V = RouteView;

    open spec fn view(&self) -> RouteView {
        RouteView { matcher: self.matcher@, handler: self.handler }
    }
}

/// A route table as a sequence of route models.
pub open spec fn table_view(table: Seq<Route>) -> Seq<RouteView> {
    Seq::new(table.len(), |i: int| table[i]@)
}

impl MatcherView {
    /// Whether the rule accepts `path`.
    pub open spec fn accepts(self, path: Seq<u8>) -> bool {
        match self {
            MatcherView::Exact(bytes) => path == bytes,
            MatcherView::Prefix(bytes) => bytes.is_prefix_of(path),
        }
    }

    /// The bytes that the rule compares the path with.
    pub open spec fn pattern(self) -> Seq<u8> {
        match self {
            MatcherView::Exact(bytes) => bytes,
            MatcherView::Prefix(bytes) => bytes,
        }
    }
}

/// Index of the first route at or after `from` that accepts `path`;
/// `table.len()` if none does.
pub open spec fn first_route(table: Seq<RouteView>, path: Seq<u8>, from: int) -> int
    decreases table.len() - from,
{
    if from >= table.len() {
        table.len() as int
    } else if table[from].matcher.accepts(path) {
        from
    } else {
        first_route(table, path, from + 1)
    }
}

/// First match wins; a path that no route accepts goes to `NotFound`.
pub open spec fn select(table: Seq<RouteView>, path: Seq<u8>) -> Selection {
    let at = first_route(table, path, 0);
    if at < table.len() {
        Selection {
            handler: table[at].handler,
            matched: table[at].matcher.pattern().len() as usize,
        }
    } else {
        Selection { handler: Handler::NotFound, matched: 0 }
    }
}

/// The routes of this server, in match order.
pub open spec fn routes() -> Seq<RouteView> {
    seq![
        RouteView { matcher: MatcherView::Exact("/".spec_bytes()), handler: Handler::Root },
        RouteView { matcher: MatcherView::Prefix("/echo/".spec_bytes()), handler: Handler::Echo },
        RouteView {
            matcher: MatcherView::Prefix("/user-agent".spec_bytes()),
            handler: Handler::UserAgent,
        },
        RouteView { matcher: MatcherView::Prefix("/files/".spec_bytes()), handler: Handler::Files },
    ]
}

/// `first_route` returns the least index at or after `from` of a route that
/// accepts the path.
pub proof fn lemma_first_route(table: Seq<RouteView>, path: Seq<u8>, from: int)
    requires
        0 <= from <= table.len(),
    ensures
        from <= first_route(table, path, from) <= table.len(),
        first_route(table, path, from) < table.len() ==> table[first_route(
            table,
            path,
            from,
        )].matcher.accepts(path),
        forall|j: int|
            from <= j < first_route(table, path, from) ==> !table[j].matcher.accepts(path),
    decreases table.len() - from,
{
    if from < table.len() && !table[from].matcher.accepts(path) {
        lemma_first_route(table, path, from + 1);
    }
}

/// Route precedence, written out: the root rule is asked first, then the
/// echo, the user-agent and the files prefixes, and what none of them
/// accepts is not found.
pub proof fn lemma_precedence(path: Seq<u8>)
    ensures
        select(routes(), path).handler == (if path == "/".spec_bytes() {
            Handler::Root
        } else if "/echo/".spec_bytes().is_prefix_of(path) {
            Handler::Echo
        } else if "/user-agent".spec_bytes().is_prefix_of(path) {
            Handler::UserAgent
        } else if "/files/".spec_bytes().is_prefix_of(path) {
            Handler::Files
        } else {
            Handler::NotFound
        }),
        select(routes(), path).matched == (if path == "/".spec_bytes() {
            "/".spec_bytes().len()
        } else if "/echo/".spec_bytes().is_prefix_of(path) {
            "/echo/".spec_bytes().len()
        } else if "/user-agent".spec_bytes().is_prefix_of(path) {
            "/user-agent".spec_bytes().len()
        } else if "/files/".spec_bytes().is_prefix_of(path) {
            "/files/".spec_bytes().len()
        } else {
            0
        }),
        select(routes(), path).matched <= path.len(),
{
    reveal_with_fuel(first_route, 5);
    lemma_patterns();
}

/// The four patterns, byte by byte.
pub proof fn lemma_patterns()
    ensures
        "/".spec_bytes() == seq![47u8],
        "/echo/".spec_bytes() == seq![47u8, 101, 99, 104, 111, 47],
        "/user-agent".spec_bytes() == seq![47u8, 117, 115, 101, 114, 45, 97, 103, 101, 110, 116],
        "/files/".spec_bytes() == seq![47u8, 102, 105, 108, 101, 115, 47],
{
    broadcast use vstd::string::is_ascii_spec_bytes;

    reveal_strlit("/");
    reveal_strlit("/echo/");
    reveal_strlit("/user-agent");
    reveal_strlit("/files/");
    assert(vstd::string::is_ascii("/"));
    assert(vstd::string::is_ascii("/echo/"));
    assert(vstd::string::is_ascii("/user-agent"));
    assert(vstd::string::is_ascii("/files/"));
    assert("/".spec_bytes() =~= seq![47u8]);
    assert("/echo/".spec_bytes() =~= seq![47u8, 101, 99, 104, 111, 47]);
    assert("/user-agent".spec_bytes() =~= seq![
        47u8,
        117,
        115,
        101,
        114,
        45,
        97,
        103,
        101,
        110,
        116,
    ]);
    assert("/files/".spec_bytes() =~= seq![47u8, 102, 105, 108, 101, 115, 47]);
}

impl Matcher {
    pub fn accepts(&self, path: &[u8]) -> (r: bool)
        ensures
            r == self@.accepts(path@),
    {
        match self {
            Matcher::Exact(bytes) => equal(path, bytes),
            Matcher::Prefix(bytes) => starts_with(path, bytes),
        }
    }

    pub fn pattern(&self) -> (r: &'static [u8])
        ensures
            r@ == self@.pattern(),
    {
        match self {
            Matcher::Exact(bytes) => bytes,
            Matcher::Prefix(bytes) => bytes,
        }
    }
}

/// The routes of this server, in match order.
pub fn route_table() -> (table: Vec<Route>)
    ensures
        table_view(table@) == routes(),
{
    let mut table: Vec<Route> = Vec::new();
    table.push(Route { matcher: Matcher::Exact("/".as_bytes()), handler: Handler::Root });
    table.push(Route { matcher: Matcher::Prefix("/echo/".as_bytes()), handler: Handler::Echo });
    table.push(
        Route { matcher: Matcher::Prefix("/user-agent".as_bytes()), handler: Handler::UserAgent },
    );
    table.push(Route { matcher: Matcher::Prefix("/files/".as_bytes()), handler: Handler::Files });
    assert(table_view(table@) =~= routes());
    table
}

/// Picks the handler for `path` from `table`: that of the first route
/// whose rule accepts the path, or `NotFound`.
pub fn select_route(table: &[Route], path: &[u8]) -> (r: Selection)
    ensures
        r == select(table_view(table@), path@),
        table_view(table@) == routes() ==> r.matched <= path@.len(),
{
    let ghost model = table_view(table@);
    let mut i: usize = 0;
    while i < table.len()
        invariant
            i <= table.len(),
            model == table_view(table@),
            first_route(model, path@, 0) == first_route(model, path@, i as int),
        decreases table.len() - i,
    {
        if table[i].matcher.accepts(path) {
            proof {
                lemma_precedence(path@);
            }
            return Selection { handler: table[i].handler, matched: table[i].matcher.pattern().len() };
        }
        i += 1;
    }
    Selection { handler: Handler::NotFound, matched: 0 }
}

/// Picks the handler for `path` from the routes of this server.
pub fn route(path: &[u8]) -> (r: Selection)
    ensures
        r == select(routes(), path@),
        r.matched <= path@.len(),
{
    let table = route_table();
    select_route(table.as_slice(), path)
}

} // verus!
