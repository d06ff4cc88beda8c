use leptos_ntex_unofficial::http::{
    first_value, first_value_text, is_failure, is_redirection, is_success, HeaderName,
    HeaderValue,
};
use leptos_ntex_unofficial::response::{
    accept_header_includes_html, header_merge, html_ranges, is_representation_header,
    requested_html_ranges, weight_for_html, HeaderMerge, NtexResponse, OwnFields, Weight,
    REDIRECT_HEADER,
};
use leptos_ntex_unofficial::{redirect, ResponseOptions, ResponseParts};
use ntex::http::HeaderMap;

fn name(text: &str) -> HeaderName {
    HeaderName::from_text(text).unwrap()
}

fn value(text: &str) -> HeaderValue {
    HeaderValue::from_text(text).unwrap()
}

fn values(headers: &HeaderMap, name: &str) -> Vec<String> {
    headers
        .get_all(name)
        .map(|value| value.to_str().unwrap().to_owned())
        .collect()
}

fn response(status: u16, fields: &[(&str, &str)]) -> NtexResponse {
    let mut parts = ResponseParts::new();
    for (key, text) in fields {
        parts.append_header(name(key), value(text));
    }
    NtexResponse {
        status,
        headers: parts.headers,
    }
}

fn options(status: Option<u16>, fields: &[(&str, &str)]) -> ResponseOptions {
    let mut options = ResponseOptions::new();
    if let Some(status) = status {
        options.set_status(status);
    }
    for (key, text) in fields {
        options.append_header(name(key), value(text));
    }
    options
}

fn weight(q: &str) -> Option<Weight> {
    q.trim()
        .parse::<f32>()
        .ok()
        .filter(|q| (0.0..=1.0).contains(q))
        .map(|q| (q + 0.0).to_bits())
}

fn accepts(accept: &str) -> bool {
    let ranges = html_ranges(accept)
        .iter()
        .map(|q| q.as_ref().map(|q| weight(q)))
        .collect();
    accept_header_includes_html(&ranges)
}

#[test]
fn names_in_normal_form_may_hold_a_quote() {
    assert_eq!(HeaderName::from_lowercase("x\"y").unwrap().as_str(), "x\"y");
    assert!(HeaderName::from_lowercase("X-A").is_none());
    assert!(HeaderName::from_lowercase("").is_none());
    assert!(HeaderName::from_lowercase("a b").is_none());
    assert!(HeaderName::from_lowercase(&"a".repeat(65536)).is_none());
    assert!(HeaderName::from_text("x\"y").is_none());
}

#[test]
fn quoted_names_survive_a_merge() {
    let native = ntex::http::header::HeaderName::from_lowercase(b"x\"y").unwrap();
    let mut parts = ResponseParts::new();
    let quoted = HeaderName::from_lowercase("x\"y").unwrap();
    parts.append_header(quoted.clone(), value("1"));
    parts.append_header(quoted, value("2"));
    assert_eq!(parts.headers.get_all(&native).count(), 2);
    assert!(first_value(&parts.headers, "x\"y").is_none());
    let mut head = NtexResponse {
        status: 200,
        headers: HeaderMap::new(),
    };
    head.extend_response_parts(parts);
    let merged: Vec<&str> = head
        .headers
        .get_all(&native)
        .map(|value| value.to_str().unwrap())
        .collect();
    assert_eq!(merged, ["1", "2"]);
}

#[test]
fn quoted_names_are_inserted_and_kept() {
    let native = ntex::http::header::HeaderName::from_lowercase(b"x\"y").unwrap();
    let mut parts = ResponseParts::new();
    let quoted = || HeaderName::from_lowercase("x\"y").unwrap();
    parts.insert_header(quoted(), value("1"));
    parts.insert_header(quoted(), value("2"));
    parts.insert_header(name("etag"), value("\"e\""));
    parts.strip(OwnFields::Failed);
    assert_eq!(parts.headers.get(&native).unwrap().to_str().unwrap(), "2");
    assert_eq!(parts.headers.len(), 1);
}

#[test]
fn streamed_pages_are_html() {
    let head = NtexResponse::from_stream();
    assert_eq!(head.status, 200);
    assert_eq!(
        values(&head.headers, "content-type"),
        ["text/html; charset=utf-8"]
    );
    assert_eq!(head.headers.len(), 1);
}

#[test]
fn status_classes() {
    assert!(is_success(200) && is_success(299) && !is_success(300) && !is_success(199));
    assert!(is_redirection(304) && !is_redirection(400));
    assert!(is_failure(404) && is_failure(500) && !is_failure(399) && !is_failure(600));
}

#[test]
fn header_names_are_tokens_in_lower_case() {
    assert_eq!(name("X-Thing").as_str(), "x-thing");
    assert!(HeaderName::from_text("").is_none());
    assert!(HeaderName::from_text("a b").is_none());
    assert!(HeaderName::from_text("caf\u{e9}").is_none());
}

#[test]
fn header_values_hold_no_control_bytes() {
    assert!(HeaderValue::from_bytes(b"a\0b").is_none());
    assert!(HeaderValue::from_bytes(b"a\nb").is_none());
    assert_eq!(HeaderValue::from_bytes(b"\xff").unwrap().to_text(), None);
    assert_eq!(value("a\tb").as_bytes(), b"a\tb");
    assert_eq!(value("ab").to_text(), Some("ab".to_owned()));
}

#[test]
fn first_values_are_found_in_any_case() {
    let head = response(200, &[("x-a", "1"), ("x-a", "2")]);
    assert_eq!(first_value(&head.headers, "X-A").unwrap().as_bytes(), b"1");
    assert_eq!(first_value_text(&head.headers, "x-a"), Some("1".to_owned()));
    assert!(first_value(&head.headers, "x-b").is_none());
}

#[test]
fn parts_insert_and_append() {
    let mut parts = ResponseParts::new();
    parts.append_header(name("x-a"), value("1"));
    parts.append_header(name("x-a"), value("2"));
    assert_eq!(values(&parts.headers, "x-a"), ["1", "2"]);
    parts.insert_header(name("x-a"), value("3"));
    assert_eq!(values(&parts.headers, "x-a"), ["3"]);
    assert_eq!(parts.status, None);
}

#[test]
fn options_are_taken_once() {
    let mut taken = options(Some(418), &[("x-a", "1")]);
    taken.insert_header(name("x-b"), value("2"));
    let parts = taken.take();
    assert_eq!(parts.status, Some(418));
    assert_eq!(values(&parts.headers, "x-b"), ["2"]);
    assert_eq!(taken.parts.status, None);
    assert!(taken.parts.headers.is_empty());
    taken.overwrite(parts);
    assert_eq!(taken.parts.status, Some(418));
}

#[test]
fn merge_rules_by_name() {
    for replaced in ["etag", "content-type", "location", "expires", "server", "repr-digest"] {
        assert_eq!(header_merge(replaced), HeaderMerge::ReplaceOne);
    }
    for list in ["content-encoding", "content-language", "cache-control", "accept-ranges"] {
        assert_eq!(header_merge(list), HeaderMerge::ReplaceList);
    }
    for added in ["set-cookie", "vary", "link", "x-anything"] {
        assert_eq!(header_merge(added), HeaderMerge::Append);
    }
}

#[test]
fn owned_headers_are_never_appended() {
    for owned in [
        "content-length",
        "content-type",
        "content-encoding",
        "content-range",
        "transfer-encoding",
        "accept-ranges",
        "etag",
        "last-modified",
        "content-digest",
        "digest",
    ] {
        assert!(is_representation_header(owned));
        assert_ne!(header_merge(owned), HeaderMerge::Append);
    }
    for owned in ["content-language", "content-location", "repr-digest", "sec-websocket-version"] {
        assert!(!is_representation_header(owned));
        assert_ne!(header_merge(owned), HeaderMerge::Append);
    }
}

#[test]
fn overrides_join_the_response() {
    let mut head = response(200, &[("content-type", "text/html"), ("vary", "a"), ("cache-control", "x")]);
    let mut extra = options(
        Some(201),
        &[
            ("content-type", "text/plain"),
            ("content-type", "application/json"),
            ("vary", "b"),
            ("cache-control", "no-store"),
            ("cache-control", "private"),
        ],
    );
    head.extend_response(&mut extra);
    assert_eq!(head.status, 201);
    assert_eq!(values(&head.headers, "content-type"), ["application/json"]);
    assert_eq!(values(&head.headers, "vary"), ["a", "b"]);
    assert_eq!(values(&head.headers, "cache-control"), ["no-store", "private"]);
    assert_eq!(extra.parts.status, None);
}

#[test]
fn missing_override_keeps_the_status() {
    let mut head = response(204, &[]);
    head.extend_response_parts(ResponseParts::new());
    assert_eq!(head.status, 204);
    assert!(head.headers.is_empty());
}

#[test]
fn failed_response_describes_itself() {
    let mut head = response(413, &[("content-type", "text/plain")]);
    let mut extra = options(
        Some(200),
        &[
            ("content-type", "application/json"),
            ("etag", "\"x\""),
            ("content-language", "de"),
            ("set-cookie", "a=1"),
        ],
    );
    head.extend_failed_response(&mut extra);
    assert_eq!(head.status, 413);
    assert_eq!(values(&head.headers, "content-type"), ["text/plain"]);
    assert!(values(&head.headers, "etag").is_empty());
    assert!(values(&head.headers, "content-language").is_empty());
    assert_eq!(values(&head.headers, "set-cookie"), ["a=1"]);
}

#[test]
fn stripping_drops_what_the_response_owns() {
    let fields = [("etag", "\"x\""), ("content-language", "de"), ("x-a", "1")];
    let mut parts = options(None, &fields).take();
    parts.strip(OwnFields::Served { omit_language: false });
    assert_eq!(values(&parts.headers, "content-language"), ["de"]);
    assert!(values(&parts.headers, "etag").is_empty());
    let mut parts = options(None, &fields).take();
    parts.strip(OwnFields::Served { omit_language: true });
    assert!(values(&parts.headers, "content-language").is_empty());
    assert_eq!(values(&parts.headers, "x-a"), ["1"]);
}

#[test]
fn default_content_type_fills_a_gap_only() {
    let mut head = response(200, &[]);
    head.set_default_content_type("text/html\0bad");
    assert!(head.headers.is_empty());
    head.set_default_content_type("text/html; charset=utf-8");
    assert_eq!(values(&head.headers, "content-type"), ["text/html; charset=utf-8"]);
    head.set_default_content_type("text/plain");
    assert_eq!(values(&head.headers, "content-type"), ["text/html; charset=utf-8"]);
    let mut head = response(200, &[("content-type", "")]);
    head.set_default_content_type("text/plain");
    assert_eq!(values(&head.headers, "content-type"), [""]);
}

#[test]
fn html_acceptance() {
    for accepted in [
        "text/html",
        "text/html; charset=utf-8",
        "text/html;q=0.1",
        "text/html;q=not-a-number",
        "text/html,application/xhtml+xml,application/xml;q=0.9,*/*;q=0.8",
        "TEXT/HTML",
        "application/json, text/html",
        "text/html;q=0, text/html",
        "text/html,",
        "text/html;q=-0.5",
        "text/html;q=2",
        "text/html;q=1",
        "text/html;q=nan",
    ] {
        assert!(accepts(accepted), "{accepted}");
    }
    for refused in [
        "text/html;q=0",
        "text/html;q=0.0",
        "text/html;q=0, application/json",
        "application/json",
        "text/plain",
        "application/x-text/html-fake",
        "*/*",
        "",
    ] {
        assert!(!accepts(refused), "{refused}");
    }
}

#[test]
fn html_ranges_come_with_their_quality() {
    assert_eq!(
        html_ranges("text/html;q=0.5, text/plain, TEXT/html"),
        [Some("0.5".to_owned()), None]
    );
}

#[test]
fn only_the_html_range_has_an_html_weight() {
    let media = |kind: &str, subtype: &str| Some((kind.to_owned(), subtype.to_owned(), None));
    assert_eq!(weight_for_html(media("text", "html")), Some(None));
    assert_eq!(weight_for_html(media("text", "plain")), None);
    assert_eq!(weight_for_html(media("application", "html")), None);
    assert_eq!(weight_for_html(None), None);
}

#[test]
fn html_ranges_of_a_request() {
    let head = response(200, &[("accept", "text/html;q=1"), ("accept", "text/html")]);
    assert_eq!(requested_html_ranges(&head.headers), [Some("1".to_owned())]);
    assert!(requested_html_ranges(&HeaderMap::new()).is_empty());
    let mut opaque = ResponseParts::new();
    opaque.append_header(name("accept"), HeaderValue::from_bytes(&[0xff, 0xfe]).unwrap());
    assert!(requested_html_ranges(&opaque.headers).is_empty());
}

#[test]
fn redirect_header_is_that_of_server_fn() {
    assert_eq!(REDIRECT_HEADER, server_fn::redirect::REDIRECT_HEADER);
}

#[test]
fn form_submissions_are_redirected() {
    let mut extra = ResponseOptions::new();
    assert!(redirect("/target", true, &mut extra));
    assert_eq!(extra.parts.status, Some(302));
    assert_eq!(values(&extra.parts.headers, "location"), ["/target"]);
    assert!(values(&extra.parts.headers, "serverfnredirect").is_empty());
}

#[test]
fn other_clients_are_asked_to_navigate() {
    let mut extra = ResponseOptions::new();
    assert!(redirect("/target", false, &mut extra));
    assert_eq!(extra.parts.status, None);
    assert_eq!(values(&extra.parts.headers, "location"), ["/target"]);
    assert_eq!(values(&extra.parts.headers, "serverfnredirect"), [""]);
}

#[test]
fn illegal_redirect_targets_change_nothing() {
    let mut extra = ResponseOptions::new();
    assert!(!redirect("/a\nb", true, &mut extra));
    assert_eq!(extra.parts.status, None);
    assert!(extra.parts.headers.is_empty());
}
