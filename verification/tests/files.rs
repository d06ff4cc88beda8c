use leptos_ntex_unofficial::files::conditional::{
    file_response, if_range_matches, partial_status, plain_status, plan_range, select_range,
    unsupported_modified, whole_status, FileMethod, FilePlan, FileRequest, Preview, RangePlan,
};
use leptos_ntex_unofficial::files::encodings::{
    accepted_encodings, answered, encoding_members, ensure_encoding_vary,
    ensure_precompressed_headers, open_static_file, precompressed_preference, AcceptedEncodings,
    Answer, Attempt, Coding, Precompressed, FULL_WEIGHT,
};
use leptos_ntex_unofficial::files::handlers::{
    complete_file_response, file_and_error_handler_with_context, missing_file_options,
    missing_asset_status, missing_file_status, refuse_encodings,
};
use leptos_ntex_unofficial::files::paths::{
    admits_target, cached_site_root, compressed_path, file_extension, is_below,
    is_blocked_dot_segment, media_type, pkg_prefix, pkg_relative, pkg_segment, safe_subpath,
};
use leptos_ntex_unofficial::http::HeaderValue;
use leptos_ntex_unofficial::response::{NtexResponse, Weight};
use leptos_ntex_unofficial::ResponseOptions;
use ntex::http::header::HeaderName;
use ntex::http::HeaderMap;

fn fields(list: &[(&str, &[u8])]) -> HeaderMap {
    let mut map = HeaderMap::new();
    for (name, value) in list {
        map.append(
            HeaderName::try_from(*name).unwrap(),
            ntex::http::header::HeaderValue::from_bytes(value).unwrap(),
        );
    }
    map
}

fn values(headers: &HeaderMap, name: &str) -> Vec<String> {
    headers
        .get_all(name)
        .map(|value| value.to_str().unwrap().to_owned())
        .collect()
}

fn value(text: &str) -> HeaderValue {
    HeaderValue::from_text(text).unwrap()
}

fn weight(q: &str) -> Option<Weight> {
    q.trim()
        .parse::<f32>()
        .ok()
        .filter(|q| (0.0..=1.0).contains(q))
        .map(|q| (q + 0.0).to_bits())
}

fn encodings_of(headers: &HeaderMap) -> AcceptedEncodings {
    let codings = encoding_members(headers)
        .into_iter()
        .map(|member| Coding {
            weights: member.weights.iter().map(|q| weight(q)).collect(),
            token: member.token,
        })
        .collect();
    accepted_encodings(&codings)
}

fn encodings(lines: &[&str]) -> AcceptedEncodings {
    let list: Vec<(&str, &[u8])> = lines
        .iter()
        .map(|line| ("accept-encoding", line.as_bytes()))
        .collect();
    encodings_of(&fields(&list))
}

fn preference(lines: &[&str]) -> Vec<&'static str> {
    precompressed_preference(encodings(lines))
        .into_iter()
        .map(|variant| variant.header_value())
        .collect()
}

fn strings(parts: &[&str]) -> Vec<String> {
    parts.iter().map(|part| (*part).to_owned()).collect()
}

fn names(parts: &[&str]) -> Vec<Vec<u8>> {
    parts.iter().map(|part| part.as_bytes().to_vec()).collect()
}

#[test]
fn full_weight_is_one() {
    assert_eq!(FULL_WEIGHT, 1.0f32.to_bits());
}

#[test]
fn dot_segments_are_hidden() {
    assert!(is_blocked_dot_segment(".env"));
    assert!(is_blocked_dot_segment("."));
    assert!(is_blocked_dot_segment(".."));
    assert!(!is_blocked_dot_segment(".well-known"));
    assert!(!is_blocked_dot_segment("a.b"));
    assert!(!is_blocked_dot_segment(""));
}

#[test]
fn subpaths_are_decoded_segments() {
    assert_eq!(
        safe_subpath("/.well-known/security.txt"),
        Some(strings(&[".well-known", "security.txt"]))
    );
    assert_eq!(safe_subpath("/a%20b//c"), Some(strings(&["a b", "c"])));
    assert_eq!(safe_subpath("/caf%C3%A9"), Some(strings(&["caf\u{e9}"])));
    assert_eq!(safe_subpath("/"), Some(vec![]));
    assert_eq!(safe_subpath("/./a"), Some(strings(&["a"])));
    assert_eq!(safe_subpath(""), Some(vec![]));
    assert_eq!(safe_subpath("/a%zz"), Some(strings(&["a%zz"])));
}

#[test]
fn escapes_are_refused_in_every_spelling() {
    for path in [
        "/.env",
        "/.well-known/.secret",
        "/.well-known/../public.txt",
        "/foo%5Cbar",
        "/%2e%2e/x",
        "/a%2Fb",
        "/%2Eenv",
        "/a%00b",
        "/%FF",
    ] {
        assert_eq!(safe_subpath(path), None, "{path}");
    }
}

#[test]
fn targets_are_files_below_the_root() {
    let root = names(&["srv", "site"]);
    assert!(admits_target(&root, &names(&["srv", "site", "a"]), true));
    assert!(!admits_target(&root, &names(&["srv", "site", "a"]), false));
    assert!(!admits_target(&root, &names(&["srv", "other"]), true));
    assert!(is_below(&root, &root));
    assert!(!is_below(&root, &names(&["srv"])));
}

#[test]
fn sibling_has_the_extension_behind_the_name() {
    assert_eq!(compressed_path(b"/srv/app.js", "br"), b"/srv/app.js.br".to_vec());
    assert_eq!(Precompressed::Br.extension(), "br");
    assert_eq!(Precompressed::Gzip.extension(), "gz");
}

#[test]
fn package_paths() {
    assert_eq!(pkg_segment("/pkg"), "pkg");
    assert_eq!(pkg_segment("pkg"), "pkg");
    assert_eq!(pkg_prefix("//pkg"), "/pkg");
    assert_eq!(pkg_relative("/pkg/app.js", "/pkg"), "/app.js");
    assert_eq!(pkg_relative("/other/app.js", "/pkg"), "/");
}

#[test]
fn site_root_is_cached_once() {
    let mut cache: Option<u8> = None;
    assert!(!cached_site_root(&mut cache, None));
    assert_eq!(cache, None);
    assert!(cached_site_root(&mut cache, Some(1)));
    assert!(cached_site_root(&mut cache, Some(2)));
    assert_eq!(cache, Some(1));
}

#[test]
fn offered_encodings() {
    assert_eq!(preference(&["br, gzip"]), ["br", "gzip"]);
    assert!(preference(&[]).is_empty());
    assert_eq!(preference(&["br"]), ["br"]);
    assert_eq!(preference(&["gzip"]), ["gzip"]);
    assert!(preference(&["deflate"]).is_empty());
}

#[test]
fn relative_weights_order_the_encodings() {
    assert_eq!(preference(&["gzip;q=1, br;q=0.1"]), ["gzip", "br"]);
    assert_eq!(preference(&["br;q=0.9, gzip;q=0.2"]), ["br", "gzip"]);
    assert_eq!(preference(&["gzip;q=0.5, br;q=0.5"]), ["br", "gzip"]);
    assert_eq!(preference(&["br;q=0, gzip"]), ["gzip"]);
    assert_eq!(preference(&["br, gzip;q=0"]), ["br"]);
}

#[test]
fn wildcard_backfills_what_is_not_listed() {
    assert_eq!(preference(&["*"]), ["br", "gzip"]);
    assert_eq!(preference(&["br;q=0.2, *;q=0.9"]), ["gzip", "br"]);
    assert!(preference(&["*;q=0"]).is_empty());
    assert_eq!(preference(&["br;q=0, *;q=1"]), ["gzip"]);
    assert_eq!(preference(&["gzip;q=0, *;q=1"]), ["br"]);
}

#[test]
fn encoding_spelling_is_lenient() {
    assert_eq!(preference(&["BR, GZip;Q=0.5"]), ["br", "gzip"]);
    assert_eq!(preference(&["br", "gzip"]), ["br", "gzip"]);
    assert_eq!(preference(&["br;q=0.9, gzip;Q=0.1"]), ["br", "gzip"]);
    assert_eq!(preference(&[",gzip"]), ["gzip"]);
    assert_eq!(preference(&["gzip,"]), ["gzip"]);
    assert_eq!(preference(&["gzip,   "]), ["gzip"]);
}

#[test]
fn malformed_quality_is_full_weight() {
    assert_eq!(preference(&["gzip;q=abc, br;q=0.5"]), ["gzip", "br"]);
    assert_eq!(preference(&["gzip;q=2, br;q=1"]), ["br", "gzip"]);
    assert_eq!(preference(&["gzip;q=nan, br;q=0.5"]), ["gzip", "br"]);
}

#[test]
fn last_mention_of_an_encoding_counts() {
    assert!(preference(&["br;q=0.9, br;q=0"]).is_empty());
    assert_eq!(preference(&["br;q=0, br;q=0.9"]), ["br"]);
}

#[test]
fn opaque_encoding_lines_are_skipped() {
    let headers = fields(&[("accept-encoding", b"\xff"), ("accept-encoding", b"br")]);
    let variants = precompressed_preference(encodings_of(&headers));
    assert_eq!(variants, [Precompressed::Br]);
}

#[test]
fn plain_file_is_acceptable_unless_refused() {
    assert!(encodings(&[]).identity);
    assert!(encodings(&["br"]).identity);
    assert!(!encodings(&["identity;q=0"]).identity);
    assert!(!encodings(&["*;q=0"]).identity);
    assert!(encodings(&["*;q=0, identity;q=0.1"]).identity);
    assert_eq!(encodings(&["identity;q=1"]).identity_q, Some(FULL_WEIGHT));
}

#[test]
fn attempts_in_order() {
    assert_eq!(open_static_file(encodings(&[])), [Attempt::Plain]);
    assert_eq!(
        open_static_file(encodings(&["br, gzip"])),
        [
            Attempt::Variant(Precompressed::Br),
            Attempt::Variant(Precompressed::Gzip),
            Attempt::Plain,
        ]
    );
    assert_eq!(
        open_static_file(encodings(&["br, identity;q=0"])),
        [Attempt::Variant(Precompressed::Br), Attempt::Refuse]
    );
    assert_eq!(open_static_file(encodings(&["*;q=0"])), [Attempt::Refuse]);
    assert_eq!(
        open_static_file(encodings(&["gzip;q=0.2, identity;q=0.8"]))[0],
        Attempt::Plain
    );
}

#[test]
fn vary_is_added_once() {
    let vary = |existing: &[&str]| {
        let list: Vec<(&str, &[u8])> = existing.iter().map(|v| ("vary", v.as_bytes())).collect();
        let mut headers = fields(&list);
        ensure_encoding_vary(&mut headers);
        values(&headers, "vary")
    };
    assert_eq!(vary(&[]), ["Accept-Encoding"]);
    assert_eq!(vary(&["Accept-Encoding"]), ["Accept-Encoding"]);
    assert_eq!(vary(&["*"]), ["*"]);
    assert_eq!(vary(&["accept-encoding"]), ["accept-encoding"]);
    assert_eq!(vary(&["Origin, Accept-Encoding"]), ["Origin, Accept-Encoding"]);
    assert_eq!(vary(&[""]), ["", "Accept-Encoding"]);
    assert_eq!(vary(&["   "]).len(), 2);
    assert_eq!(vary(&["Origin", "Accept-Encoding"]), ["Origin", "Accept-Encoding"]);
}

#[test]
fn variant_names_its_encoding() {
    let mut headers = fields(&[("content-encoding", b"identity")]);
    ensure_precompressed_headers(&mut headers, Precompressed::Gzip);
    assert_eq!(values(&headers, "content-encoding"), ["gzip"]);
}

#[test]
fn file_responses_say_how_they_were_chosen() {
    let mut head = NtexResponse {
        status: 200,
        headers: HeaderMap::new(),
    };
    complete_file_response(&mut head, Some(Precompressed::Br));
    assert_eq!(values(&head.headers, "content-encoding"), ["br"]);
    assert_eq!(values(&head.headers, "vary"), ["Accept-Encoding"]);
    let refusal = refuse_encodings();
    assert_eq!(refusal.status, 406);
    assert_eq!(values(&refusal.headers, "vary"), ["Accept-Encoding"]);
}

#[test]
fn application_has_the_last_word_on_a_file() {
    let mut head = NtexResponse {
        status: 200,
        headers: HeaderMap::new(),
    };
    let mut options = ResponseOptions::new();
    options.set_status(203);
    options.append_header(
        leptos_ntex_unofficial::http::HeaderName::from_text("vary").unwrap(),
        value("Cookie"),
    );
    file_and_error_handler_with_context(&mut head, None, &mut options);
    assert_eq!(head.status, 203);
    assert_eq!(values(&head.headers, "vary"), ["Accept-Encoding", "Cookie"]);
    assert_eq!(options.parts.status, None);
}

#[test]
fn missing_files_are_not_found() {
    assert_eq!(missing_file_options().parts.status, Some(404));
    assert_eq!(missing_file_status(200), 404);
    assert_eq!(missing_file_status(302), 302);
    assert_eq!(missing_file_status(404), 404);
}

#[test]
fn unwritable_modification_times() {
    assert!(!unsupported_modified(None));
    assert!(unsupported_modified(Some(None)));
    assert!(!unsupported_modified(Some(Some(253_402_300_799))));
    assert!(unsupported_modified(Some(Some(253_402_300_800))));
}

#[test]
fn unconditional_requests_are_served_plainly() {
    let headers = HeaderMap::new();
    let request = FileRequest {
        method: FileMethod::Get,
        headers: &headers,
    };
    assert!(matches!(file_response(&request, 200), FilePlan::Plain));
    assert!(matches!(file_response(&request, 301), FilePlan::Plain));
}

#[test]
fn conditional_requests_for_a_redirect_are_bare() {
    let headers = fields(&[("if-none-match", b"*")]);
    let request = FileRequest {
        method: FileMethod::Get,
        headers: &headers,
    };
    assert!(matches!(file_response(&request, 302), FilePlan::Bare(302)));
}

#[test]
fn preconditions_are_projected() {
    let headers = fields(&[
        ("if-match", b"\"a\""),
        ("if-match", b"\"b\""),
        ("if-none-match", b""),
        ("if-unmodified-since", b"Thu, 01 Jan 1970 00:00:00 GMT"),
        ("if-modified-since", b"Thu, 01 Jan 1970 00:00:00 GMT"),
        ("range", b"bytes=0-1"),
    ]);
    let plan = |method, base| {
        let request = FileRequest {
            method,
            headers: &headers,
        };
        match file_response(&request, base) {
            FilePlan::Projected { headers, range } => (headers, range.map(|r| r.as_bytes().to_vec())),
            _ => panic!("not projected"),
        }
    };
    let (projected, range) = plan(FileMethod::Get, 200);
    assert_eq!(values(&projected, "if-match"), ["\"a\", \"b\""]);
    assert!(values(&projected, "if-none-match").is_empty());
    assert!(values(&projected, "if-unmodified-since").is_empty());
    assert_eq!(values(&projected, "if-modified-since").len(), 1);
    assert_eq!(range, Some(b"bytes=0-1".to_vec()));
    let (projected, range) = plan(FileMethod::Other, 200);
    assert!(values(&projected, "if-modified-since").is_empty());
    assert_eq!(range, None);
    let (projected, range) = plan(FileMethod::Get, 404);
    assert!(projected.is_empty());
    assert_eq!(range, None);
}

#[test]
fn ranges_of_other_units_are_ignored() {
    for (raw, kept) in [
        (&b"bytes=0-1"[..], true),
        (b"Bytes=0-1", true),
        (b"items=0-1", false),
        (b"nonsense", true),
    ] {
        let headers = fields(&[("range", raw)]);
        let request = FileRequest {
            method: FileMethod::Get,
            headers: &headers,
        };
        match file_response(&request, 200) {
            FilePlan::Projected { range, .. } => assert_eq!(range.is_some(), kept),
            _ => panic!("not projected"),
        }
    }
}

fn planned(request: &[(&str, &[u8])], current: &[(&str, &[u8])], status: u16, size: Option<u64>) -> (String, Vec<String>) {
    let own = fields(request);
    let current = fields(current);
    let range = HeaderValue::from_bytes(own.get("range").unwrap().as_bytes()).unwrap();
    let mut projected = HeaderMap::new();
    let plan = plan_range(
        &FileRequest {
            method: FileMethod::Get,
            headers: &own,
        },
        &mut projected,
        &range,
        &Preview {
            status,
            headers: &current,
        },
        size,
    );
    let shown = match plan {
        RangePlan::Precondition => "precondition".to_owned(),
        RangePlan::Whole => "whole".to_owned(),
        RangePlan::Unreadable => "unreadable".to_owned(),
        RangePlan::Malformed => "malformed".to_owned(),
        RangePlan::Unsatisfiable(text) => text,
        RangePlan::Partial => "partial".to_owned(),
    };
    (shown, values(&projected, "range"))
}

#[test]
fn range_of_an_empty_file_is_unsatisfiable() {
    let headers = fields(&[("range", b"bytes=0-0")]);
    let request = FileRequest {
        method: FileMethod::Get,
        headers: &headers,
    };
    let FilePlan::Projected { headers: mut projected, range } = file_response(&request, 200) else {
        panic!("a range is planned");
    };
    let current = HeaderMap::new();
    let preview = Preview {
        status: 200,
        headers: &current,
    };
    let plan = plan_range(&request, &mut projected, &range.unwrap(), &preview, Some(0));
    assert_eq!(plan.status(), Some(416));
    assert!(matches!(plan, RangePlan::Unsatisfiable(text) if text == "bytes */0"));
}

#[test]
fn refused_ranges_have_a_status() {
    assert_eq!(RangePlan::Unreadable.status(), Some(500));
    assert_eq!(RangePlan::Malformed.status(), Some(400));
    assert_eq!(RangePlan::Unsatisfiable(String::new()).status(), Some(416));
    assert_eq!(RangePlan::Precondition.status(), None);
    assert_eq!(RangePlan::Whole.status(), None);
    assert_eq!(RangePlan::Partial.status(), None);
}

#[test]
fn first_file_that_opens_answers() {
    let br = Attempt::Variant(Precompressed::Br);
    let gzip = Attempt::Variant(Precompressed::Gzip);
    let plan = vec![br, gzip, Attempt::Plain];
    assert_eq!(answered(&plan, &vec![]), Answer::Try(br));
    assert_eq!(answered(&plan, &vec![false]), Answer::Try(gzip));
    assert_eq!(
        answered(&plan, &vec![false, true]),
        Answer::File(Some(Precompressed::Gzip))
    );
    assert_eq!(answered(&plan, &vec![false, false]), Answer::Try(Attempt::Plain));
    assert_eq!(answered(&plan, &vec![false, false, true]), Answer::File(None));
    assert_eq!(answered(&plan, &vec![false, false, false]), Answer::Missing);
    let strict = vec![br, Attempt::Refuse];
    assert_eq!(answered(&strict, &vec![false]), Answer::Refused);
    assert_eq!(
        answered(&strict, &vec![true]),
        Answer::File(Some(Precompressed::Br))
    );
    assert_eq!(answered(&vec![], &vec![]), Answer::Missing);
}

#[test]
fn missing_assets_are_not_found() {
    assert_eq!(missing_asset_status(), 404);
}

#[test]
fn extensions_tell_the_media_type() {
    let extension = |name: &[u8]| file_extension(name);
    assert_eq!(extension(b"app.min.js").as_deref(), Some("js"));
    assert_eq!(extension(b"name.").as_deref(), Some(""));
    assert_eq!(extension(b"..x").as_deref(), Some("x"));
    assert_eq!(extension(b"plain"), None);
    assert_eq!(extension(b".hidden"), None);
    assert_eq!(extension(b".."), None);
    assert_eq!(extension(b""), None);
    assert_eq!(extension(b"a.\xff"), None);
    assert_eq!(media_type(b"photo.jpg").as_deref(), Some("image/jpeg"));
    assert_eq!(media_type(b"style.css").as_deref(), Some("text/css"));
    assert_eq!(media_type(b"name.").as_deref(), Some("application/octet-stream"));
    assert_eq!(media_type(b"plain"), None);
}

fn ranged(raw: &[u8], size: u64) -> (String, Vec<String>) {
    planned(&[("range", raw)], &[], 200, Some(size))
}

#[test]
fn ranges_are_planned() {
    let part = |text: &str| ("partial".to_owned(), vec![text.to_owned()]);
    assert_eq!(ranged(b"bytes=0-4", 10), part("bytes=0-4"));
    assert_eq!(ranged(b"BYTES=2-", 10), part("bytes=2-9"));
    assert_eq!(ranged(b"bytes=-3", 10), part("bytes=7-9"));
    assert_eq!(ranged(b"bytes=0-99", 10), part("bytes=0-9"));
    assert_eq!(ranged(b"bytes=1-2,4-5", 10), part("bytes=1-2"));
    assert_eq!(ranged(b"bytes=10-", 10).0, "bytes */10");
    assert_eq!(ranged(b"bytes=0-4", 0).0, "bytes */0");
    assert_eq!(ranged(b"nonsense", 10).0, "bytes */10");
}

#[test]
fn range_failures_are_told_apart() {
    assert_eq!(planned(&[("range", b"bytes=0-1")], &[], 304, Some(10)).0, "precondition");
    assert_eq!(planned(&[("range", b"bytes=0-1")], &[], 412, Some(10)).0, "precondition");
    assert_eq!(planned(&[("range", b"bytes=0-1")], &[], 200, None).0, "unreadable");
    assert_eq!(planned(&[("range", b"\xff")], &[], 200, Some(10)).0, "malformed");
}

#[test]
fn if_range_compares_strong_tags_and_exact_dates() {
    let modified: (&str, &[u8]) = ("last-modified", b"Sun, 06 Nov 1994 08:49:37 GMT");
    let outcome = |condition: &[u8]| {
        planned(
            &[("range", b"bytes=0-1"), ("if-range", condition)],
            &[("etag", b"\"a\""), modified],
            200,
            Some(10),
        )
        .0
    };
    assert_eq!(outcome(b"\"a\""), "partial");
    assert_eq!(outcome(b"\"b\""), "whole");
    assert_eq!(outcome(b"W/\"a\""), "whole");
    assert_eq!(outcome(b"Sun, 06 Nov 1994 08:49:37 GMT"), "partial");
    assert_eq!(outcome(b"Sunday, 06-Nov-94 08:49:37 GMT"), "partial");
    assert_eq!(outcome(b"Sun, 06 Nov 1994 08:49:38 GMT"), "whole");
    assert_eq!(outcome(b"Mon, 06 Nov 1994 08:49:37 GMT"), "whole");
    assert_eq!(outcome(b"nonsense"), "whole");
    assert_eq!(outcome(b"\xff"), "whole");
}

#[test]
fn if_range_on_given_dates() {
    let condition = value("any date");
    let date = Some("Sun, 06 Nov 1994 08:49:37 GMT".to_string());
    let other = Some("Mon, 07 Nov 1994 08:49:37 GMT".to_string());
    assert!(if_range_matches(&condition, &None, &date, &date));
    assert!(!if_range_matches(&condition, &None, &date, &other));
    assert!(!if_range_matches(&condition, &None, &date, &None));
    assert!(!if_range_matches(&condition, &None, &None, &None));
    let weak = value("W/\"a\"");
    assert!(!if_range_matches(&weak, &Some(value("W/\"a\"")), &date, &date));
}

#[test]
fn first_range_must_lie_within_the_file() {
    assert_eq!(select_range(&Some(vec![(2, 3), (0, 1)]), 10), Some((2, 3)));
    assert_eq!(select_range(&Some(vec![(8, 3)]), 10), None);
    assert_eq!(select_range(&Some(vec![(0, 0)]), 10), None);
    assert_eq!(select_range(&Some(vec![]), 10), None);
    assert_eq!(select_range(&None, 10), None);
    assert_eq!(select_range(&Some(vec![(0, 1)]), 0), None);
    assert_eq!(select_range(&Some(vec![(u64::MAX, u64::MAX)]), u64::MAX), None);
}

#[test]
fn statuses_are_adjusted() {
    assert_eq!(plain_status(200, 404), 404);
    assert_eq!(plain_status(304, 404), 304);
    assert_eq!(partial_status(200), 206);
    assert_eq!(partial_status(416), 416);
    assert_eq!(whole_status(200, FileMethod::Get, 203), 203);
    assert_eq!(whole_status(304, FileMethod::Get, 200), 304);
    assert_eq!(whole_status(304, FileMethod::Other, 200), 412);
    assert_eq!(whole_status(412, FileMethod::Head, 200), 412);
}
