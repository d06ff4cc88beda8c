use leptos_ntex_unofficial::render::{
    is_islands_navigation, leptos_corrected_path, ntex_method, page_stream, preload_links,
    route_accepts, unsupported_ssr_mode_status, ManifestEntry, PageStream, PreloadLink,
    UNSUPPORTED_MODE,
};
use leptos_ntex_unofficial::routes::{
    expand_optionals, into_route_listing, leptos_routes_with_context, needs_install, to_ntex_path,
    DeclaredRoute, ExecutorError, ExecutorInitState, Method, PathSegment, Registration, SsrMode,
};
use leptos_ntex_unofficial::{
    generate_route_list_with_exclusions, try_init_executor, NtexRouteListing,
};
use ntex::http::header::{HeaderName, HeaderValue};
use ntex::http::HeaderMap;

fn fixed(text: &str) -> PathSegment {
    PathSegment::Static(text.to_owned())
}

fn param(text: &str) -> PathSegment {
    PathSegment::Param(text.to_owned())
}

fn optional(text: &str) -> PathSegment {
    PathSegment::OptionalParam(text.to_owned())
}

fn splat(text: &str) -> PathSegment {
    PathSegment::Splat(text.to_owned())
}

fn declared(path: Vec<PathSegment>) -> DeclaredRoute<u8> {
    DeclaredRoute {
        path,
        mode: SsrMode::InOrder,
        methods: vec![Method::Get, Method::Post],
        regenerate: Some(4),
    }
}

fn paths(listings: &[NtexRouteListing<u8>]) -> Vec<(&str, bool)> {
    listings
        .iter()
        .map(|listing| (listing.path(), listing.is_excluded()))
        .collect()
}

#[test]
fn executor_is_installed_once() {
    let mut state = ExecutorInitState::Unknown;
    assert!(needs_install(state));
    assert_eq!(try_init_executor(&mut state, Ok(())), Ok(()));
    assert_eq!(state, ExecutorInitState::NtexInstalled);
    assert!(!needs_install(state));
    assert_eq!(
        try_init_executor(&mut state, Err(ExecutorError::AlreadySet)),
        Ok(())
    );
}

#[test]
fn foreign_executor_is_remembered() {
    let mut state = ExecutorInitState::Unknown;
    assert_eq!(
        try_init_executor(&mut state, Err(ExecutorError::AlreadySet)),
        Err(ExecutorError::AlreadySet)
    );
    assert_eq!(state, ExecutorInitState::ForeignInstalled);
    assert_eq!(
        try_init_executor(&mut state, Ok(())),
        Err(ExecutorError::AlreadySet)
    );
}

#[test]
fn paths_are_written_as_patterns() {
    assert_eq!(to_ntex_path(&vec![]), "");
    assert_eq!(to_ntex_path(&vec![PathSegment::Unit]), "");
    assert_eq!(
        to_ntex_path(&vec![fixed("users"), param("id"), splat("rest")]),
        "/users/{id}/{rest}*"
    );
    assert_eq!(to_ntex_path(&vec![fixed("/a"), fixed("b")]), "/a/b");
    assert_eq!(to_ntex_path(&vec![fixed(""), fixed("b")]), "/b");
}

#[test]
fn optional_segments_are_expanded_both_ways() {
    let expanded = expand_optionals(&vec![fixed("a"), optional("b"), optional("c")]);
    let patterns: Vec<String> = expanded.iter().map(to_ntex_path).collect();
    assert_eq!(patterns, ["/a/{b}/{c}", "/a/{b}", "/a/{c}", "/a"]);
}

#[test]
fn plain_path_expands_to_itself() {
    let expanded = expand_optionals(&vec![fixed("a"), splat("b")]);
    let patterns: Vec<String> = expanded.iter().map(to_ntex_path).collect();
    assert_eq!(patterns, ["/a/{b}*"]);
}

#[test]
fn declared_route_is_listed_for_each_expansion() {
    let listings = into_route_listing(&declared(vec![optional("id")]));
    assert_eq!(paths(&listings), [("/{id}", false), ("/", false)]);
    assert_eq!(listings[0].mode(), SsrMode::InOrder);
    assert_eq!(listings[0].methods(), &vec![Method::Get, Method::Post]);
    assert_eq!(listings[0].regenerate(), Some(4));
}

#[test]
fn no_routes_at_all_leave_the_root() {
    let none: Vec<DeclaredRoute<u8>> = vec![];
    let listings = generate_route_list_with_exclusions(&none, &vec![]);
    assert_eq!(paths(&listings), [("/", false)]);
    assert_eq!(listings[0].methods(), &vec![Method::Get]);
    assert_eq!(listings[0].mode(), SsrMode::OutOfOrder);
    assert_eq!(listings[0].regenerate(), None);
}

#[test]
fn excluded_paths_are_listed_as_such() {
    let routes = vec![declared(vec![fixed("a")]), declared(vec![fixed("b")])];
    let excluded = vec!["/a".to_owned(), "/api".to_owned()];
    let listings = generate_route_list_with_exclusions(&routes, &excluded);
    assert_eq!(
        paths(&listings),
        [("/b", false), ("/a", true), ("/api", true)]
    );
}

#[test]
fn registration_puts_server_functions_first_and_leaves_exclusions_free() {
    let listings = vec![
        NtexRouteListing::new(
            "/page".to_owned(),
            SsrMode::Async,
            vec![Method::Get, Method::Put],
            Some(1u8),
        ),
        NtexRouteListing::excluded("/api/own".to_owned()),
    ];
    let functions = vec![
        ("/api/own".to_owned(), "POST".to_owned()),
        ("/api/f".to_owned(), "GET".to_owned()),
    ];
    let plan = leptos_routes_with_context(&listings, &functions);
    assert_eq!(plan.len(), 3);
    assert!(matches!(
        &plan[0],
        Registration::ServerFn { path, verb } if path == "/api/f" && verb == "GET"
    ));
    assert!(matches!(
        &plan[1],
        Registration::Page { path, method: Method::Get, mode: SsrMode::Async, regenerate: Some(1) }
            if path == "/page"
    ));
    assert!(matches!(
        &plan[2],
        Registration::Page { path, method: Method::Put, mode: SsrMode::Async, regenerate: Some(1) }
            if path == "/page"
    ));
}

#[test]
fn corrected_path_keeps_the_query() {
    assert_eq!(leptos_corrected_path("/a/b", ""), "http://leptos/a/b");
    assert_eq!(leptos_corrected_path("/a", "x=1&y"), "http://leptos/a?x=1&y");
}

#[test]
fn methods_have_their_names() {
    let names: Vec<&str> = [
        Method::Get,
        Method::Post,
        Method::Put,
        Method::Delete,
        Method::Patch,
    ]
    .iter()
    .map(|method| ntex_method(*method))
    .collect();
    assert_eq!(names, ["GET", "POST", "PUT", "DELETE", "PATCH"]);
}

#[test]
fn get_routes_answer_head_too() {
    assert!(route_accepts(Method::Get, "GET"));
    assert!(route_accepts(Method::Get, "HEAD"));
    assert!(!route_accepts(Method::Post, "HEAD"));
    assert!(!route_accepts(Method::Get, "get"));
}

#[test]
fn head_reaches_the_page_that_get_reaches() {
    let listings = vec![
        NtexRouteListing::new(
            "/p".to_owned(),
            SsrMode::OutOfOrder,
            vec![Method::Post, Method::Get],
            None::<u8>,
        ),
        NtexRouteListing::new("/p".to_owned(), SsrMode::Async, vec![Method::Get], None),
    ];
    let functions = vec![("/api/f".to_owned(), "POST".to_owned())];
    let plan = leptos_routes_with_context(&listings, &functions);
    let answering = |requested: &str| {
        plan.iter().position(|entry| match entry {
            Registration::ServerFn { path, verb } => path == "/p" && verb == requested,
            Registration::Page { path, method, .. } => {
                path == "/p" && route_accepts(*method, requested)
            }
        })
    };
    assert_eq!(answering("GET"), Some(2));
    assert_eq!(answering("HEAD"), Some(2));
    assert_eq!(answering("POST"), Some(1));
}

#[test]
fn modes_decide_how_a_page_is_streamed() {
    assert_eq!(page_stream(SsrMode::OutOfOrder, true), PageStream::OutOfOrder);
    assert_eq!(page_stream(SsrMode::OutOfOrder, false), PageStream::InOrder);
    assert_eq!(
        page_stream(SsrMode::PartiallyBlocked, true),
        PageStream::OutOfOrder
    );
    assert_eq!(page_stream(SsrMode::InOrder, true), PageStream::InOrder);
    assert_eq!(page_stream(SsrMode::Async, true), PageStream::Collected);
    assert_eq!(page_stream(SsrMode::Static, true), PageStream::Stored);
    assert_eq!(page_stream(SsrMode::Unknown, true), PageStream::Unsupported);
    assert_eq!(unsupported_ssr_mode_status(), 500);
    assert_eq!(UNSUPPORTED_MODE, "This rendering mode is not supported.");
}

#[test]
fn islands_navigation_needs_the_router() {
    let mut headers = HeaderMap::new();
    assert!(!is_islands_navigation(&headers, true));
    headers.insert(
        HeaderName::try_from("islands-router").unwrap(),
        HeaderValue::from_static(""),
    );
    assert!(is_islands_navigation(&headers, true));
    assert!(!is_islands_navigation(&headers, false));
}

#[test]
fn prefetched_functions_are_preloaded() {
    let manifest = vec![
        ManifestEntry {
            key: "a".to_owned(),
            modules: vec!["m1".to_owned(), "m2".to_owned()],
        },
        ManifestEntry {
            key: "b".to_owned(),
            modules: vec!["m3".to_owned()],
        },
    ];
    let keys = vec!["b".to_owned(), "missing".to_owned(), "a".to_owned()];
    let links = preload_links("/pkg", &manifest, "loader.js", &keys);
    let shown: Vec<String> = links
        .iter()
        .map(|link| match link {
            PreloadLink::Module(href) => format!("module {href}"),
            PreloadLink::Loader(href) => format!("loader {href}"),
        })
        .collect();
    assert_eq!(
        shown,
        [
            "module /pkg/m3.wasm",
            "module /pkg/m1.wasm",
            "module /pkg/m2.wasm",
            "loader /pkg/loader.js",
        ]
    );
    assert!(preload_links("/pkg", &manifest, "loader.js", &vec![]).is_empty());
}
