use leptos_ntex_unofficial::config::PayloadCollector;
use leptos_ntex_unofficial::http::HeaderValue;
use leptos_ntex_unofficial::response::NtexResponse;
use leptos_ntex_unofficial::server_fn::handlers::{
    complete_dispatch, dispatch, location_matches_referrer, oversize_response, path_on_origin,
    reset_status_after_redirect_strip, same_origin_location, settle_redirect, unmatched_response,
    Dispatch,
};
use leptos_ntex_unofficial::server_fn::registry::{upsert, Entry};
use leptos_ntex_unofficial::server_fn::request::{
    try_into_bytes, try_into_string, BodyError, BodyStream, Emitted, Received,
};
use leptos_ntex_unofficial::server_fn::response::SERVER_FN_ERROR_HEADER;
use leptos_ntex_unofficial::{
    NtexRequest, NtexServerResponse, ResponseOptions, ServerFnRegistry,
};
use ntex::http::header::HeaderName;
use ntex::http::HeaderMap;

fn fields(list: &[(&str, &[u8])]) -> HeaderMap {
    let mut map = HeaderMap::new();
    for (name, value) in list {
        map.append(
            HeaderName::try_from(*name).unwrap(),
            ntex::http::header::HeaderValue::from_bytes(value).unwrap(),
        );
    }
    map
}

fn values(headers: &HeaderMap, name: &str) -> Vec<String> {
    headers
        .get_all(name)
        .map(|value| value.to_str().unwrap().to_owned())
        .collect()
}

fn value(bytes: &[u8]) -> HeaderValue {
    HeaderValue::from_bytes(bytes).unwrap()
}

fn request(query: Option<&str>, headers: &[(&str, &[u8])]) -> NtexRequest {
    NtexRequest {
        query: query.map(str::to_owned),
        headers: fields(headers),
    }
}

fn response(status: u16, headers: &[(&str, &[u8])]) -> NtexServerResponse {
    NtexServerResponse {
        status,
        headers: fields(headers),
    }
}

fn owned(text: &str) -> String {
    text.to_owned()
}

#[test]
fn request_fields_are_read() {
    let some = |text: &str| Some(text.to_owned());
    let probe = |raw: &[u8]| request(None, &[("x-probe", raw)]).header("x-probe");
    assert_eq!(probe(b"probe-value"), some("probe-value"));
    assert_eq!(probe(b"other-value"), some("other-value"));
    assert_eq!(probe(b""), some(""));
    assert_eq!(probe(b"hello\xffworld"), some("hello\u{fffd}world"));
    assert_eq!(request(None, &[]).header("x-probe"), None);
    let full = request(
        None,
        &[
            ("content-type", b"application/json"),
            ("accept", b"text/html"),
            ("referer", b"http://example.test/form"),
        ],
    );
    assert_eq!(full.to_content_type(), some("application/json"));
    assert_eq!(full.accepts(), some("text/html"));
    assert_eq!(full.referer(), some("http://example.test/form"));
    let bare = request(None, &[]);
    assert_eq!(bare.to_content_type(), None);
    assert_eq!(bare.accepts(), None);
    assert_eq!(bare.referer(), None);
}

#[test]
fn empty_query_is_not_a_missing_one() {
    assert_eq!(request(Some("foo=bar&baz=1"), &[]).as_query(), Some("foo=bar&baz=1"));
    assert_eq!(request(Some(""), &[]).as_query(), Some(""));
    assert_eq!(request(None, &[]).as_query(), None);
}

#[test]
fn body_text_must_be_utf8() {
    assert_eq!(try_into_string(b"caf\xc3\xa9".to_vec()), Ok(owned("caf\u{e9}")));
    let fault = try_into_string(b"ab\xff".to_vec()).unwrap_err();
    assert_eq!(fault, String::from_utf8(b"ab\xff".to_vec()).unwrap_err().to_string());
}

#[test]
fn body_chunks_are_collected_or_refused() {
    let mut collector = PayloadCollector::new(None, 4);
    assert!(try_into_bytes(&mut collector, 4, Ok(b"abcd".to_vec())).is_ok());
    assert!(matches!(
        try_into_bytes(&mut collector, 4, Ok(b"e".to_vec())),
        Err(BodyError::TooLarge(m)) if m == "payload exceeds limit of 4 bytes"
    ));
    assert!(matches!(
        try_into_bytes(&mut collector, 4, Err(owned("reset"))),
        Err(BodyError::Transport(m)) if m == "reset"
    ));
    assert_eq!(collector.finish(), b"abcd".to_vec());
}

#[test]
fn body_stream_ends_with_its_first_failure() {
    let mut stream = BodyStream::try_into_stream(5);
    assert!(matches!(stream.advance(Received::Chunk(5)), Emitted::Chunk));
    assert!(stream.is_open());
    assert!(matches!(
        stream.advance(Received::Chunk(1)),
        Emitted::Overflow(m) if m == "payload exceeds limit of 5 bytes"
    ));
    assert!(!stream.is_open());
    let mut stream = BodyStream::try_into_stream(5);
    assert!(matches!(stream.advance(Received::Failure), Emitted::Failure));
    assert!(!stream.is_open());
    let mut stream = BodyStream::try_into_stream(5);
    assert!(matches!(stream.advance(Received::End), Emitted::End));
    assert!(!stream.is_open());
}

#[test]
fn body_stream_survives_enormous_chunks() {
    let mut stream = BodyStream::try_into_stream(usize::MAX);
    assert!(matches!(stream.advance(Received::Chunk(usize::MAX)), Emitted::Chunk));
    assert!(matches!(stream.advance(Received::Chunk(1)), Emitted::Chunk));
}

fn same_origin(text: &str) -> Option<String> {
    same_origin_location("http", "example.test:8080", &value(text.as_bytes()))
        .and_then(|found| found.to_text())
}

#[test]
fn same_origin_locations() {
    let some = |text: &str| Some(text.to_owned());
    assert_eq!(same_origin("/dashboard"), some("/dashboard"));
    assert_eq!(same_origin("/"), some("/"));
    assert_eq!(same_origin("//evil.test/steal"), None);
    assert_eq!(same_origin("/\\evil.test/steal"), None);
    assert_eq!(same_origin("http://example.test:8080/form?x=1"), some("/form?x=1"));
    assert_eq!(same_origin("http://evil.test/form"), None);
    assert_eq!(same_origin("https://example.test:8080/form"), None);
    assert_eq!(same_origin("http://example.test:8080"), some("/"));
    assert_eq!(same_origin("HTTP://Example.Test:8080/form"), some("/form"));
    assert_eq!(same_origin("evil.test/path"), None);
    assert_eq!(same_origin("javascript:alert(1)"), None);
    assert!(same_origin_location("http", "example.test:8080", &value(b"hello\xfa")).is_none());
}

#[test]
fn path_by_the_parts_of_a_uri() {
    let parts = |scheme: &str, host: &str, path: Option<&str>| {
        Some((Some(owned(scheme)), Some(owned(host)), path.map(owned)))
    };
    let found = |parts| path_on_origin("http", "a.test", parts).and_then(|v| v.to_text());
    assert_eq!(found(parts("HTTP", "A.test", Some("/x"))), Some(owned("/x")));
    assert_eq!(found(parts("http", "a.test", None)), Some(owned("/")));
    assert_eq!(found(parts("http", "b.test", Some("/x"))), None);
    assert_eq!(found(Some((None, Some(owned("a.test")), Some(owned("/x"))))), None);
    assert_eq!(found(None), None);
}

#[test]
fn referrer_echoes() {
    let matches = |a: &[u8], b: &[u8]| location_matches_referrer(&value(a), &value(b));
    assert!(matches(b"/form", b"/form"));
    assert!(matches(b"/form?", b"/form"));
    assert!(!matches(b"/form?evil=1", b"/form"));
    assert!(!matches(b"hello\xfa", b"/form"));
    assert!(!matches(b"/form", b"hello\xfa"));
    assert!(!matches(b"hello\xfa", b"hello\xfa"));
}

#[test]
fn status_after_a_dropped_redirect() {
    let reset = |status, headers: &[(&str, &[u8])]| {
        let mut head = response(status, headers);
        reset_status_after_redirect_strip(&mut head);
        head.status
    };
    assert_eq!(reset(302, &[]), 200);
    assert_eq!(reset(302, &[("serverfnerror", b"ServerFnError")]), 500);
    assert_eq!(reset(200, &[]), 200);
    assert_eq!(reset(404, &[]), 404);
}

fn settled(head: NtexServerResponse, accepts_html: bool, referrer: Option<&str>) -> (u16, Vec<String>) {
    let mut head = head;
    let referrer = referrer.map(|text| value(text.as_bytes()));
    settle_redirect(&mut head, accepts_html, &referrer, "http", "a.test");
    (head.status, values(&head.headers, "location"))
}

#[test]
fn redirects_are_settled() {
    let to = |status: u16, place: &str| (status, vec![place.to_owned()]);
    let gone = |status: u16| (status, Vec::<String>::new());
    assert_eq!(settled(response(302, &[("location", b"/x")]), false, None), to(302, "/x"));
    assert_eq!(
        settled(response(302, &[("location", b"http://evil.test/")]), false, None),
        gone(200)
    );
    assert_eq!(
        settled(
            response(302, &[("location", b"http://evil.test/"), ("serverfnerror", b"x")]),
            true,
            None
        ),
        gone(500)
    );
    assert_eq!(
        settled(response(302, &[("location", b"http://a.test/f?")]), true, Some("http://a.test/f")),
        to(302, "/f")
    );
    assert_eq!(
        settled(response(302, &[("location", b"http://e.test/f")]), true, Some("http://e.test/f")),
        gone(200)
    );
    assert_eq!(settled(response(200, &[]), true, Some("http://a.test/f")), to(302, "/f"));
    assert_eq!(settled(response(200, &[]), true, Some("http://e.test/f")), gone(200));
    assert_eq!(settled(response(500, &[]), true, Some("http://a.test/f")), gone(500));
    assert_eq!(settled(response(200, &[]), false, Some("http://a.test/f")), gone(200));
}

#[test]
fn oversize_refusal() {
    let refusal = oversize_response(8);
    assert_eq!(refusal.status, 413);
    assert_eq!(refusal.content_type, Some("text/plain; charset=utf-8"));
    assert_eq!(refusal.allow, None);
    assert_eq!(refusal.body, "payload exceeds limit of 8 bytes");
}

#[test]
fn unmatched_requests_are_told_why() {
    let refusal = unmatched_response("/api/f", "PUT", &vec![owned("GET"), owned("POST")]);
    assert_eq!(refusal.status, 405);
    assert_eq!(refusal.allow, Some(owned("GET, POST")));
    assert_eq!(refusal.body, "Server function at route /api/f does not accept method PUT.");
    let refusal = unmatched_response("/api/f", "PUT", &vec![]);
    assert_eq!(refusal.status, 400);
    assert_eq!(refusal.allow, None);
    assert!(refusal
        .body
        .starts_with("Could not find a server function at the route /api/f. \n\nIt's likely"));
}

#[test]
fn dispatch_refuses_size_before_anything_else() {
    let declared = fields(&[("content-length", b"9")]);
    let none: Vec<String> = vec![];
    assert!(matches!(
        dispatch(&declared, 8, true, "/f", "GET", &none),
        Dispatch::Refuse(refusal) if refusal.status == 413
    ));
    assert!(matches!(
        dispatch(&declared, 8, false, "/f", "GET", &none),
        Dispatch::Refuse(refusal) if refusal.status == 413
    ));
    assert!(matches!(dispatch(&declared, 9, true, "/f", "GET", &none), Dispatch::Run));
    assert!(matches!(
        dispatch(&declared, 9, false, "/f", "GET", &none),
        Dispatch::Refuse(refusal) if refusal.status == 400
    ));
    assert!(matches!(
        dispatch(&HeaderMap::new(), 0, false, "/f", "GET", &vec![owned("POST")]),
        Dispatch::Refuse(refusal) if refusal.status == 405
    ));
}

#[test]
fn adapter_errors_stay_what_they_are() {
    let complete = |adapter_error| {
        let mut head = NtexResponse {
            status: 413,
            headers: fields(&[("content-type", b"text/plain")]),
        };
        let mut options = ResponseOptions::new();
        options.set_status(200);
        for (name, text) in [("content-type", "x/y"), ("set-cookie", "a=1")] {
            options.append_header(
                leptos_ntex_unofficial::http::HeaderName::from_text(name).unwrap(),
                value(text.as_bytes()),
            );
        }
        complete_dispatch(&mut head, adapter_error, &mut options);
        (
            head.status,
            values(&head.headers, "content-type"),
            values(&head.headers, "set-cookie"),
        )
    };
    assert_eq!(complete(true), (413, vec![owned("text/plain")], vec![owned("a=1")]));
    assert_eq!(complete(false), (200, vec![owned("x/y")], vec![owned("a=1")]));
}

#[test]
fn response_heads() {
    let head = NtexServerResponse::try_from_bytes("application/json").unwrap();
    assert_eq!(head.status, 200);
    assert_eq!(values(&head.headers, "content-type"), ["application/json"]);
    assert!(NtexServerResponse::try_from_bytes("a\nb").is_none());
    let mut failure = NtexServerResponse::error_response("/api/f").unwrap();
    assert_eq!(failure.status, 500);
    assert_eq!(values(&failure.headers, "serverfnerror"), ["/api/f"]);
    assert!(NtexServerResponse::error_response("a\nb").is_none());
    assert!(failure.content_type("text/plain"));
    assert!(!failure.content_type("a\nb"));
    assert!(!failure.redirect("a\nb"));
    assert_eq!(failure.status, 500);
    assert!(failure.redirect("/x"));
    let taken = failure.take();
    assert_eq!(taken.status, 302);
    assert_eq!(values(&taken.headers, "location"), ["/x"]);
    assert_eq!(values(&taken.headers, "content-type"), ["text/plain"]);
}

#[test]
fn error_header_is_that_of_server_fn() {
    assert_eq!(
        SERVER_FN_ERROR_HEADER,
        server_fn::error::SERVER_FN_ERROR_HEADER
    );
}

#[test]
fn last_registration_of_a_method_wins() {
    let mut registry = ServerFnRegistry::new();
    assert!(registry.lookup_server_fn("/f", "GET").is_none());
    registry.register_explicit(owned("/f"), owned("GET"), 1);
    registry.register_explicit(owned("/f"), owned("POST"), 2);
    registry.register_explicit(owned("/g"), owned("GET"), 3);
    registry.register_explicit(owned("/f"), owned("GET"), 4);
    assert_eq!(registry.lookup_server_fn("/f", "GET"), Some(&4));
    assert_eq!(registry.lookup_server_fn("/f", "POST"), Some(&2));
    assert_eq!(registry.lookup_server_fn("/g", "GET"), Some(&3));
    assert_eq!(registry.lookup_server_fn("/g", "POST"), None);
    assert_eq!(registry.lookup_server_fn("/h", "GET"), None);
    assert_eq!(registry.server_fn_methods("/f"), ["GET", "POST"]);
    assert!(registry.server_fn_methods("/h").is_empty());
    let mut listed = registry.server_fn_paths();
    listed.sort();
    assert_eq!(
        listed,
        [
            (owned("/f"), owned("GET")),
            (owned("/f"), owned("POST")),
            (owned("/g"), owned("GET")),
        ]
    );
}

#[test]
fn upsert_replaces_in_place() {
    let mut entries: Vec<Entry<u8>> = vec![];
    upsert(&mut entries, owned("GET"), 1);
    upsert(&mut entries, owned("POST"), 2);
    upsert(&mut entries, owned("GET"), 3);
    let shown: Vec<(&str, u8)> = entries
        .iter()
        .map(|entry| (entry.method.as_str(), entry.function))
        .collect();
    assert_eq!(shown, [("GET", 3), ("POST", 2)]);
}
