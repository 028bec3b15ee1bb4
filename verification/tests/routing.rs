use mini_http::route::{route, route_table, select_route, Handler, Matcher, Route, Selection};

fn handler(path: &[u8]) -> Handler {
    route(path).handler
}

#[test]
fn table_lists_the_routes_in_match_order() {
    assert_eq!(
        route_table(),
        vec![
            Route { matcher: Matcher::Exact(b"/"), handler: Handler::Root },
            Route { matcher: Matcher::Prefix(b"/echo/"), handler: Handler::Echo },
            Route { matcher: Matcher::Prefix(b"/user-agent"), handler: Handler::UserAgent },
            Route { matcher: Matcher::Prefix(b"/files/"), handler: Handler::Files },
        ]
    );
}

#[test]
fn routes_each_known_path() {
    assert_eq!(route(b"/"), Selection { handler: Handler::Root, matched: 1 });
    assert_eq!(route(b"/echo/abc"), Selection { handler: Handler::Echo, matched: 6 });
    assert_eq!(route(b"/echo/"), Selection { handler: Handler::Echo, matched: 6 });
    assert_eq!(route(b"/user-agent"), Selection { handler: Handler::UserAgent, matched: 11 });
    assert_eq!(route(b"/files/a.txt"), Selection { handler: Handler::Files, matched: 7 });
    assert_eq!(route(b"/files/"), Selection { handler: Handler::Files, matched: 7 });
}

#[test]
fn unknown_paths_are_not_found() {
    assert_eq!(route(b"/nope"), Selection { handler: Handler::NotFound, matched: 0 });
    for path in [&b""[..], b"//", b"/echo", b"/ECHO/x", b"/files", b"/user-agen", b"/x/echo/", b"echo/"] {
        assert_eq!(handler(path), Handler::NotFound);
    }
}

#[test]
fn prefixes_compare_bytes_only() {
    assert_eq!(handler(b"/user-agentx"), Handler::UserAgent);
    assert_eq!(handler(b"/user-agent/more"), Handler::UserAgent);
    assert_eq!(handler(b"/echo/%20"), Handler::Echo);
    assert_eq!(handler(b"/files/../x"), Handler::Files);
}

#[test]
fn first_match_wins() {
    let table = vec![
        Route { matcher: Matcher::Prefix(b"/a"), handler: Handler::Echo },
        Route { matcher: Matcher::Prefix(b"/ab"), handler: Handler::Files },
        Route { matcher: Matcher::Exact(b"/"), handler: Handler::Root },
        Route { matcher: Matcher::Prefix(b"/"), handler: Handler::UserAgent },
    ];
    assert_eq!(select_route(&table, b"/abc"), Selection { handler: Handler::Echo, matched: 2 });
    assert_eq!(select_route(&table, b"/"), Selection { handler: Handler::Root, matched: 1 });
    assert_eq!(select_route(&table, b"/b"), Selection { handler: Handler::UserAgent, matched: 1 });
    assert_eq!(select_route(&table, b"x"), Selection { handler: Handler::NotFound, matched: 0 });
    assert_eq!(select_route(&[], b"/"), Selection { handler: Handler::NotFound, matched: 0 });
}

#[test]
fn matcher_accepts_exact_and_prefix() {
    assert!(Matcher::Exact(b"/").accepts(b"/"));
    assert!(!Matcher::Exact(b"/").accepts(b"/a"));
    assert!(!Matcher::Exact(b"/").accepts(b""));
    assert!(Matcher::Prefix(b"/a").accepts(b"/a"));
    assert!(Matcher::Prefix(b"/a").accepts(b"/ab"));
    assert!(!Matcher::Prefix(b"/a").accepts(b"/"));
    assert!(Matcher::Prefix(b"").accepts(b""));
    assert_eq!(Matcher::Prefix(b"/a").pattern(), b"/a");
}
