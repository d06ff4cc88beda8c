//! Dispatch of server-function requests: what is refused before the function
//! runs, and what becomes of the redirect that it answers with.

use crate::config;
use crate::http::{self, HeaderValue, StatusCode};
use crate::response::{self, NtexResponse, OwnFields, ResponseOptions};
use crate::server_fn::response::NtexServerResponse;
use crate::text::{self, eq_ignore_ascii_case, same_text, strip_last};
use ntex::http::HeaderMap;
use vstd::prelude::*;

verus! {

// ---------------------------------------------------------------------------
// Same-origin locations
// ---------------------------------------------------------------------------
/// The scheme, the authority and the path with query of a URI, as far as it has
/// them; none if it does not parse.
pub uninterp spec fn parsed_uri(uri: Seq<char>) -> Option<
    (Option<Seq<char>>, Option<Seq<char>>, Option<Seq<char>>),
>;

/// `Uri` from a text, with `Uri::scheme_str`, `Uri::authority` and
/// `Uri::path_and_query`: a parse that depends on the text alone.
#[verifier::external_body]
fn parse_uri(uri: &str) -> (parts: Option<(Option<String>, Option<String>, Option<String>)>)
    ensures
        uri_texts(parts) == parsed_uri(uri@),
{
    let uri = uri.parse::<ntex::http::Uri>().ok()?;
    let scheme = uri.scheme_str().map(str::to_owned);
    let authority = uri.authority().map(|authority| authority.as_str().to_owned());
    Some((scheme, authority, uri.path_and_query().map(|path| path.as_str().to_owned())))
}

/// A path below the current origin: one leading slash, followed by neither a slash
/// nor a backslash. Browsers read both as the start of another host.
pub open spec fn origin_relative(location: Seq<char>) -> bool {
    &&& location.len() > 0
    &&& location[0] == '/'
    &&& location.len() > 1 ==> location[1] != '/' && location[1] != '\\'
}

/// The parts of a URI, as [`parsed_uri`] gives them.
pub type UriParts = (Option<Seq<char>>, Option<Seq<char>>, Option<Seq<char>>);

/// The path on the current origin that the parts of an absolute URI of that origin
/// name.
pub open spec fn path_by_parts(
    scheme: Seq<char>,
    host: Seq<char>,
    parts: Option<UriParts>,
) -> Option<Seq<char>> {
    match parts {
        Some((Some(s), Some(a), path)) => if text::same_ignoring_case(s, scheme)
            && text::same_ignoring_case(a, host) {
            match path {
                Some(p) => Some(p),
                None => Some("/"@),
            }
        } else {
            None
        },
        _ => None,
    }
}

/// The location on the current origin that a header value names: itself if it is
/// origin-relative, the path and query of an absolute URI of the origin, and
/// nothing else.
pub open spec fn same_origin(scheme: Seq<char>, host: Seq<char>, value: Seq<u8>) -> Option<
    Seq<u8>,
> {
    match http::value_text(value) {
        Some(location) => if origin_relative(location) {
            Some(value)
        } else {
            match path_by_parts(scheme, host, parsed_uri(location)) {
                Some(path) => if http::valid_value(vstd::utf8::encode_utf8(path)) {
                    Some(vstd::utf8::encode_utf8(path))
                } else {
                    None
                },
                None => None,
            }
        },
        None => None,
    }
}

/// The characters of the parts of a URI.
pub open spec fn uri_texts(
    parts: Option<(Option<String>, Option<String>, Option<String>)>,
) -> Option<UriParts> {
    match parts {
        Some((scheme, authority, path)) => Some(
            (
                text::optional_text(scheme),
                text::optional_text(authority),
                text::optional_text(path),
            ),
        ),
        None => None,
    }
}

/// The path of an absolute URI, given by its parts, if it is on the current origin
/// and legal in a header.
pub fn path_on_origin(
    scheme: &str,
    host: &str,
    parts: Option<(Option<String>, Option<String>, Option<String>)>,
) -> (path: Option<HeaderValue>)
    ensures
        match path {
            Some(value) => path_by_parts(scheme@, host@, uri_texts(parts)) matches Some(p)
                && http::valid_value(vstd::utf8::encode_utf8(p)) && value@
                == vstd::utf8::encode_utf8(p),
            None => path_by_parts(scheme@, host@, uri_texts(parts)) matches Some(p)
                ==> !http::valid_value(vstd::utf8::encode_utf8(p)),
        },
{
    match parts {
        Some((Some(s), Some(a), path)) => {
            if !eq_ignore_ascii_case(s.as_str(), scheme) || !eq_ignore_ascii_case(
                a.as_str(),
                host,
            ) {
                return None;
            }
            match path {
                Some(p) => HeaderValue::from_text(p.as_str()),
                None => HeaderValue::from_text("/"),
            }
        },
        _ => None,
    }
}

/// Accepts a location only if it stays on the current origin.
pub fn same_origin_location(scheme: &str, host: &str, value: &HeaderValue) -> (location: Option<
    HeaderValue,
>)
    ensures
        match location {
            Some(l) => same_origin(scheme@, host@, value@) == Some(l@),
            None => same_origin(scheme@, host@, value@) is None,
        },
{
    let location = match value.to_text() {
        Some(location) => location,
        None => {
            return None;
        },
    };
    let chars = text::chars_of(location.as_str());
    if chars.len() > 0 && chars[0] == '/' && !(chars.len() > 1 && (chars[1] == '/' || chars[1]
        == '\\')) {
        return Some(value.clone());
    }
    path_on_origin(scheme, host, parse_uri(location.as_str()))
}

/// Whether a location echoes the referrer, up to a bare question mark at its end.
pub open spec fn echoes(location: Seq<u8>, referrer: Seq<u8>) -> bool {
    match (http::value_text(location), http::value_text(referrer)) {
        (Some(l), Some(r)) => l == r || text::before_suffix(l, '?') == Some(r),
        _ => false,
    }
}

/// Whether a location echoes the referrer, up to a bare question mark at its end.
pub fn location_matches_referrer(location: &HeaderValue, referrer: &HeaderValue) -> (b: bool)
    ensures
        b == echoes(location@, referrer@),
{
    match (location.to_text(), referrer.to_text()) {
        (Some(l), Some(r)) => {
            if same_text(l.as_str(), r.as_str()) {
                return true;
            }
            match strip_last(l.as_str(), '?') {
                Some(rest) => same_text(rest, r.as_str()),
                None => false,
            }
        },
        _ => false,
    }
}

// ---------------------------------------------------------------------------
// Settling the redirect of a server function
// ---------------------------------------------------------------------------
/// The status once a redirect was dropped: a failure that a redirect had covered
/// is a failure again, any other redirect becomes a success.
pub open spec fn status_without_redirect(
    status: StatusCode,
    fields: Map<Seq<char>, Seq<Seq<u8>>>,
) -> StatusCode {
    if !http::redirection(status) {
        status
    } else if fields.contains_key("serverfnerror"@) {
        http::INTERNAL_SERVER_ERROR
    } else {
        http::OK
    }
}

/// Resets the status of a response whose location was just dropped.
pub fn reset_status_after_redirect_strip(response: &mut NtexServerResponse)
    ensures
        final(response).headers == old(response).headers,
        final(response).status == status_without_redirect(
            old(response).status,
            http::header_fields(old(response).headers),
        ),
{
    proof {
        http::lemma_known_names();
    }
    if http::is_redirection(response.status) {
        response.status = if http::contains_header(&response.headers, "serverfnerror") {
            http::INTERNAL_SERVER_ERROR
        } else {
            http::OK
        };
    }
}

/// A status and header fields.
pub type Head = (StatusCode, Map<Seq<char>, Seq<Seq<u8>>>);

/// A redirect to `location`.
pub open spec fn redirected(head: Head, location: Seq<u8>) -> Head {
    (http::FOUND, head.1.insert("location"@, seq![location]))
}

/// The redirect is dropped.
pub open spec fn without_location(head: Head) -> Head {
    let fields = head.1.remove("location"@);
    (status_without_redirect(head.0, fields), fields)
}

/// The redirect back to the form that a browser submitted. An echo of the referrer
/// is replaced by its place on this origin, or dropped; a success without a
/// location of its own goes back to the referrer if that is on this origin.
pub open spec fn form_redirect(
    head: Head,
    referrer: Option<Seq<u8>>,
    scheme: Seq<char>,
    host: Seq<char>,
) -> Head {
    match referrer {
        None => head,
        Some(r) => if head.1.contains_key("location"@) && echoes(head.1["location"@][0], r) {
            match same_origin(scheme, host, r) {
                Some(place) => redirected(head, place),
                None => without_location(head),
            }
        } else if http::success(head.0) && !head.1.contains_key("location"@) {
            match same_origin(scheme, host, r) {
                Some(place) => redirected(head, place),
                None => head,
            }
        } else {
            head
        },
    }
}

/// A location off this origin is dropped.
pub open spec fn guarded(head: Head, scheme: Seq<char>, host: Seq<char>) -> Head {
    if head.1.contains_key("location"@) && same_origin(scheme, host, head.1["location"@][0])
        is None {
        without_location(head)
    } else {
        head
    }
}

/// What becomes of the response of a server function.
pub open spec fn settled(
    head: Head,
    accepts_html: bool,
    referrer: Option<Seq<u8>>,
    scheme: Seq<char>,
    host: Seq<char>,
) -> Head {
    guarded(
        if accepts_html {
            form_redirect(head, referrer, scheme, host)
        } else {
            head
        },
        scheme,
        host,
    )
}

/// The status and fields of a response.
pub open spec fn head_of(response: NtexServerResponse) -> Head {
    (response.status, http::header_fields(response.headers))
}

fn redirect_to(response: &mut NtexServerResponse, location: &HeaderValue)
    ensures
        head_of(*final(response)) == redirected(head_of(*old(response)), location@),
{
    proof {
        http::lemma_known_names();
    }
    response.status = http::FOUND;
    http::insert_field(&mut response.headers, "location", location);
}

fn strip_location(response: &mut NtexServerResponse)
    ensures
        head_of(*final(response)) == without_location(head_of(*old(response))),
{
    proof {
        http::lemma_known_names();
    }
    http::remove_field(&mut response.headers, "location");
    reset_status_after_redirect_strip(response);
}

fn settle_form_redirect(
    response: &mut NtexServerResponse,
    referrer: &Option<HeaderValue>,
    scheme: &str,
    host: &str,
)
    ensures
        head_of(*final(response)) == form_redirect(
            head_of(*old(response)),
            (match *referrer {
                Some(r) => Some(r@),
                None => None,
            }),
            scheme@,
            host@,
        ),
{
    proof {
        http::lemma_known_names();
    }
    if let Some(referrer) = referrer {
        let place = same_origin_location(scheme, host, referrer);
        match http::first_value(&response.headers, "location") {
            Some(location) => {
                if location_matches_referrer(&location, referrer) {
                    match place {
                        Some(place) => redirect_to(response, &place),
                        None => strip_location(response),
                    }
                }
            },
            None => {
                if http::is_success(response.status) {
                    if let Some(place) = place {
                        redirect_to(response, &place);
                    }
                }
            },
        }
    }
}

/// Settles the redirect of a server function's response.
///
/// `referrer` is the request's `Referer`, `scheme` and `host` the origin at which
/// it arrived. Redirects that user code asks for by response options come later
/// and are not touched here.
pub fn settle_redirect(
    response: &mut NtexServerResponse,
    accepts_html: bool,
    referrer: &Option<HeaderValue>,
    scheme: &str,
    host: &str,
)
    ensures
        head_of(*final(response)) == settled(
            head_of(*old(response)),
            accepts_html,
            (match *referrer {
                Some(r) => Some(r@),
                None => None,
            }),
            scheme@,
            host@,
        ),
{
    if accepts_html {
        settle_form_redirect(response, referrer, scheme, host);
    }
    proof {
        http::lemma_known_names();
    }
    if let Some(location) = http::first_value(&response.headers, "location") {
        if same_origin_location(scheme, host, &location).is_none() {
            strip_location(response);
        }
    }
}

/// A server function never redirects off the origin: whatever it answered, the first
/// location that is left names a place on the origin, and one location never becomes
/// several.
pub proof fn redirects_stay_on_the_origin(
    head: Head,
    accepts_html: bool,
    referrer: Option<Seq<u8>>,
    scheme: Seq<char>,
    host: Seq<char>,
)
    ensures
        ({
            let after = settled(head, accepts_html, referrer, scheme, host);
            &&& after.1.contains_key("location"@) ==> same_origin(
                scheme,
                host,
                after.1["location"@][0],
            ) is Some
            &&& (head.1.contains_key("location"@) ==> head.1["location"@].len() <= 1) ==> (
            after.1.contains_key("location"@) ==> after.1["location"@].len() <= 1)
        }),
{
}

/// A failure is never reported as a success: where a redirect of a response that
/// is marked as an error is dropped, the status is `500`, and none that is not a
/// success becomes one.
pub proof fn dropped_redirects_keep_failures(
    head: Head,
    accepts_html: bool,
    referrer: Option<Seq<u8>>,
    scheme: Seq<char>,
    host: Seq<char>,
)
    requires
        head.1.contains_key("serverfnerror"@),
    ensures
        http::redirection(head.0) ==> without_location(head).0 == http::INTERNAL_SERVER_ERROR,
        !without_location(head).1.contains_key("location"@),
        !http::success(head.0) ==> !http::success(
            settled(head, accepts_html, referrer, scheme, host).0,
        ),
{
    reveal_strlit("serverfnerror");
    reveal_strlit("location");
    assert("serverfnerror"@.len() != "location"@.len());
}

/// Nothing but the status and the location is touched.
pub proof fn other_fields_are_kept(
    head: Head,
    accepts_html: bool,
    referrer: Option<Seq<u8>>,
    scheme: Seq<char>,
    host: Seq<char>,
    name: Seq<char>,
)
    requires
        name != "location"@,
    ensures
        ({
            let after = settled(head, accepts_html, referrer, scheme, host);
            &&& after.1.contains_key(name) == head.1.contains_key(name)
            &&& head.1.contains_key(name) ==> after.1[name] == head.1[name]
        }),
{
}

// ---------------------------------------------------------------------------
// Refusals
// ---------------------------------------------------------------------------
/// A response that the dispatcher gives in place of a server function.
#[derive(Debug)]
pub struct Refusal {
    pub status: StatusCode,
    pub content_type: Option<&'static str>,
    /// The value of the `Allow` field.
    pub allow: Option<String>,
    pub body: String,
}

/// The answer to a body over the limit.
pub fn oversize_response(limit: usize) -> (refusal: Refusal)
    ensures
        refusal.status == http::PAYLOAD_TOO_LARGE,
        refusal.content_type matches Some(t) && t@ == "text/plain; charset=utf-8"@,
        refusal.allow is None,
        refusal.body@ == config::oversize_text(limit),
{
    Refusal {
        status: http::PAYLOAD_TOO_LARGE,
        content_type: Some("text/plain; charset=utf-8"),
        allow: None,
        body: config::oversize_message(limit),
    }
}

/// The methods of a path, separated by a comma and a space.
pub open spec fn listed(methods: Seq<Seq<char>>) -> Seq<char>
    decreases methods.len(),
{
    if methods.len() == 0 {
        Seq::empty()
    } else if methods.len() == 1 {
        methods[0]
    } else {
        listed(methods.drop_last()) + ", "@ + methods.last()
    }
}

fn list_methods(methods: &Vec<String>) -> (line: String)
    ensures
        line@ == listed(text::strings(methods@)),
{
    let mut line = String::new();
    let ghost names = text::strings(methods@);
    let mut i: usize = 0;
    while i < methods.len()
        invariant
            i <= methods.len(),
            names == text::strings(methods@),
            line@ == listed(names.take(i as int)),
        decreases methods.len() - i,
    {
        proof {
            assert(names.take(i + 1).drop_last() =~= names.take(i as int));
            assert(names.take(i + 1).last() == methods@[i as int]@);
        }
        if i > 0 {
            line.append(", ");
        }
        line.append(methods[i].as_str());
        proof {
            if i == 0 {
                assert(names.take(0) =~= Seq::empty());
                assert(line@ =~= methods@[0]@);
            }
        }
        i = i + 1;
    }
    proof {
        assert(names.take(i as int) =~= names);
    }
    line
}

/// What is said where no function is registered at a path.
pub open spec fn unknown_path_text(path: Seq<char>) -> Seq<char> {
    "Could not find a server function at the route "@ + path + UNKNOWN_PATH_HINT@
}

pub const UNKNOWN_PATH_HINT: &'static str = ". \n\nIt's likely that either\n1. The API prefix you specify in the `#[server]` macro doesn't match the prefix at which your server function handler is mounted, or\n2. You are on a platform that doesn't support automatic server function registration and you need to call register_explicit() on the server function type, somewhere in your `main` function.";

/// What is said where a path does not take the method.
pub open spec fn wrong_method_text(path: Seq<char>, method: Seq<char>) -> Seq<char> {
    "Server function at route "@ + path + " does not accept method "@ + method + "."@
}

/// The answer to a request that no server function takes: `405` with the methods
/// that the path does take, or `400` if it takes none.
pub fn unmatched_response(path: &str, method: &str, allowed: &Vec<String>) -> (refusal: Refusal)
    ensures
        refusal.content_type is None,
        if allowed@.len() == 0 {
            &&& refusal.status == http::BAD_REQUEST
            &&& refusal.allow is None
            &&& refusal.body@ == unknown_path_text(path@)
        } else {
            &&& refusal.status == http::METHOD_NOT_ALLOWED
            &&& refusal.allow matches Some(line) && line@ == listed(text::strings(allowed@))
            &&& refusal.body@ == wrong_method_text(path@, method@)
        },
{
    if allowed.len() == 0 {
        Refusal {
            status: http::BAD_REQUEST,
            content_type: None,
            allow: None,
            body: text::concat3(
                "Could not find a server function at the route ",
                path,
                UNKNOWN_PATH_HINT,
            ),
        }
    } else {
        let mut body = text::concat3("Server function at route ", path, " does not accept method ");
        body.append(method);
        body.append(".");
        Refusal {
            status: http::METHOD_NOT_ALLOWED,
            content_type: None,
            allow: Some(list_methods(allowed)),
            body,
        }
    }
}

/// Completes the response of a dispatch with the overrides that user code filled.
/// Where an error of the adapter took the place of the server function's response, a
/// body over the limit or a failed upgrade, it stays what it is, and only what does
/// not describe it joins.
pub fn complete_dispatch(head: &mut NtexResponse, adapter_error: bool, options: &mut ResponseOptions)
    ensures
        final(head).status == (match old(options).parts.status {
            Some(status) => if adapter_error {
                old(head).status
            } else {
                status
            },
            None => old(head).status,
        }),
        http::header_fields(final(head).headers) == response::merged(
            http::header_fields(old(head).headers),
            if adapter_error {
                response::kept_fields(
                    http::header_fields(old(options).parts.headers),
                    OwnFields::Failed,
                )
            } else {
                http::header_fields(old(options).parts.headers)
            },
        ),
        final(options).parts.status is None,
        http::header_fields(final(options).parts.headers).is_empty(),
{
    if adapter_error {
        head.extend_failed_response(options);
    } else {
        head.extend_response(options);
    }
}

/// What the dispatcher does with a request.
#[derive(Debug)]
pub enum Dispatch {
    /// The server function runs.
    Run,
    Refuse(Refusal),
}

/// Decides about a request before anything of its body is read. A declared body
/// over the limit is refused first, then a request that no function takes.
pub fn dispatch(
    headers: &HeaderMap,
    limit: usize,
    registered: bool,
    path: &str,
    method: &str,
    allowed: &Vec<String>,
) -> (decision: Dispatch)
    ensures
        ({
            let oversize = http::has_field(*headers, "content-length"@) && (
            match config::content_length(*headers) {
                Some(declared) => declared > limit,
                None => true,
            });
            match decision {
                Dispatch::Run => !oversize && registered,
                Dispatch::Refuse(refusal) => if oversize {
                    &&& refusal.status == http::PAYLOAD_TOO_LARGE
                    &&& refusal.content_type matches Some(t)
                    &&& t@ == "text/plain; charset=utf-8"@
                    &&& refusal.allow is None
                    &&& refusal.body@ == config::oversize_text(limit)
                } else {
                    &&& !registered
                    &&& refusal.content_type is None
                    &&& if allowed@.len() == 0 {
                        &&& refusal.status == http::BAD_REQUEST
                        &&& refusal.allow is None
                        &&& refusal.body@ == unknown_path_text(path@)
                    } else {
                        &&& refusal.status == http::METHOD_NOT_ALLOWED
                        &&& refusal.allow matches Some(line)
                        &&& line@ == listed(text::strings(allowed@))
                        &&& refusal.body@ == wrong_method_text(path@, method@)
                    }
                },
            }
        }),
{
    if config::content_length_exceeds(headers, limit) {
        Dispatch::Refuse(oversize_response(limit))
    } else if registered {
        Dispatch::Run
    } else {
        Dispatch::Refuse(unmatched_response(path, method, allowed))
    }
}

// ---------------------------------------------------------------------------
// Laws
// ---------------------------------------------------------------------------
proof fn lemma_byte_read(a: u8, b: u8)
    ensures
        (a as char) == (b as char) ==> a == b,
        (0x3fu8 as char) == '?',
{
    assert((a as char) as u8 == a);
    assert((b as char) as u8 == b);
}

proof fn lemma_same_bytes(a: Seq<u8>, b: Seq<u8>)
    requires
        http::ascii_text(a) == http::ascii_text(b),
    ensures
        a == b,
{
    let (x, y) = (http::ascii_text(a), http::ascii_text(b));
    assert(x.len() == a.len() && y.len() == b.len());
    assert forall|i: int| 0 <= i < a.len() implies a[i] == b[i] by {
        assert(x[i] == a[i] as char);
        assert(y[i] == b[i] as char);
        lemma_byte_read(a[i], b[i]);
    }
    assert(a =~= b);
}

proof fn lemma_bare_question(referrer: Seq<u8>)
    ensures
        http::ascii_text(referrer.push(0x3f)) == http::ascii_text(referrer).push('?'),
        http::visible(referrer.push(0x3f)) <==> http::visible(referrer),
{
    let longer = referrer.push(0x3f);
    lemma_byte_read(0x3f, 0x3f);
    assert(http::ascii_text(longer) =~= http::ascii_text(referrer).push('?'));
    if http::visible(referrer) {
        assert forall|i: int| 0 <= i < longer.len() implies http::visible_byte(
            #[trigger] longer[i],
        ) by {
            if i < referrer.len() {
                assert(longer[i] == referrer[i]);
            }
        }
    }
    if http::visible(longer) {
        assert forall|i: int| 0 <= i < referrer.len() implies http::visible_byte(
            #[trigger] referrer[i],
        ) by {
            assert(longer[i] == referrer[i]);
        }
    }
}

proof fn lemma_echoes(location: Seq<u8>, referrer: Seq<u8>)
    ensures
        echoes(location, referrer) <==> http::visible(referrer) && (location == referrer || location
            == referrer.push(0x3f)),
{
    let l = http::ascii_text(location);
    let r = http::ascii_text(referrer);
    lemma_bare_question(referrer);
    if echoes(location, referrer) {
        if l == r {
            lemma_same_bytes(location, referrer);
        } else {
            assert(l =~= r.push('?'));
            lemma_same_bytes(location, referrer.push(0x3f));
        }
    } else if http::visible(referrer) && location == referrer.push(0x3f) {
        assert(r.push('?').drop_last() =~= r);
    }
}

/// A location of the response that is on this origin, and neither is the referrer nor
/// the referrer with a bare question mark, is kept, and the status with it, whatever
/// the client accepts.
pub proof fn own_redirects_are_kept(
    head: Head,
    accepts_html: bool,
    referrer: Option<Seq<u8>>,
    scheme: Seq<char>,
    host: Seq<char>,
)
    requires
        head.1.contains_key("location"@),
        same_origin(scheme, host, head.1["location"@][0]) is Some,
        referrer matches Some(r) ==> head.1["location"@][0] != r && head.1["location"@][0]
            != r.push(0x3f),
    ensures
        settled(head, accepts_html, referrer, scheme, host) == head,
{
    if let Some(r) = referrer {
        lemma_echoes(head.1["location"@][0], r);
    }
}

/// A location off this origin that does not echo the referrer is dropped. A redirect
/// then becomes a failure where the response is marked as an error and a success
/// otherwise; any other status stays.
pub proof fn foreign_redirects_are_dropped(
    head: Head,
    accepts_html: bool,
    referrer: Option<Seq<u8>>,
    scheme: Seq<char>,
    host: Seq<char>,
)
    requires
        head.1.contains_key("location"@),
        same_origin(scheme, host, head.1["location"@][0]) is None,
        accepts_html && referrer is Some ==> head.1["location"@][0] != referrer->0
            && head.1["location"@][0] != referrer->0.push(0x3f),
    ensures
        ({
            let after = settled(head, accepts_html, referrer, scheme, host);
            &&& after.1 == head.1.remove("location"@)
            &&& after.0 == (if !http::redirection(head.0) {
                head.0
            } else if head.1.contains_key("serverfnerror"@) {
                http::INTERNAL_SERVER_ERROR
            } else {
                http::OK
            })
        }),
{
    reveal_strlit("serverfnerror");
    reveal_strlit("location");
    assert("serverfnerror"@.len() != "location"@.len());
    if let Some(r) = referrer {
        lemma_echoes(head.1["location"@][0], r);
    }
}

/// A browser whose form was answered with an echo of the referrer goes to the place of
/// the referrer on this origin; where it has none, it is not redirected at all.
pub proof fn echoes_go_back_to_the_form(
    head: Head,
    referrer: Seq<u8>,
    scheme: Seq<char>,
    host: Seq<char>,
)
    requires
        head.1.contains_key("location"@),
        head.1["location"@][0] == referrer || head.1["location"@][0] == referrer.push(0x3f),
        http::visible(referrer),
    ensures
        ({
            let after = settled(head, true, Some(referrer), scheme, host);
            match same_origin(scheme, host, referrer) {
                Some(place) => same_origin(scheme, host, place) is Some ==> after == (
                    http::FOUND,
                    head.1.insert("location"@, seq![place]),
                ),
                None => {
                    &&& after.1 == head.1.remove("location"@)
                    &&& !http::redirection(after.0)
                    &&& !http::redirection(head.0) ==> after.0 == head.0
                },
            }
        }),
{
    lemma_echoes(head.1["location"@][0], referrer);
}

/// A browser whose form was answered with a success and no location goes back to the
/// referrer, if that is on this origin. Nothing else without a location is redirected.
pub proof fn answered_forms_go_back_to_the_referrer(
    head: Head,
    accepts_html: bool,
    referrer: Option<Seq<u8>>,
    scheme: Seq<char>,
    host: Seq<char>,
)
    requires
        !head.1.contains_key("location"@),
    ensures
        ({
            let after = settled(head, accepts_html, referrer, scheme, host);
            if accepts_html && http::success(head.0) && referrer is Some && same_origin(
                scheme,
                host,
                referrer->0,
            ) is Some {
                let place = same_origin(scheme, host, referrer->0)->0;
                same_origin(scheme, host, place) is Some ==> after == (
                    http::FOUND,
                    head.1.insert("location"@, seq![place]),
                )
            } else {
                after == head
            }
        }),
{
}

/// A path with one leading slash is on the origin as it stands. Two slashes, or a slash
/// and a backslash, name another host unless the whole is a URI of this one.
pub proof fn paths_are_on_the_origin(scheme: Seq<char>, host: Seq<char>, value: Seq<u8>)
    requires
        http::visible(value),
        value.len() > 0,
        value[0] == 0x2f,
    ensures
        value.len() == 1 || (value[1] != 0x2f && value[1] != 0x5c) ==> same_origin(
            scheme,
            host,
            value,
        ) == Some(value),
        value.len() > 1 && (value[1] == 0x2f || value[1] == 0x5c) && parsed_uri(
            http::ascii_text(value),
        ) is None ==> same_origin(scheme, host, value) is None,
{
    let location = http::ascii_text(value);
    assert(location[0] == '/');
    if value.len() > 1 {
        assert(location[1] == value[1] as char);
        assert(value[1] == 0x2f <==> location[1] == '/') by {
            assert((value[1] as char) as u8 == value[1]);
        }
        assert(value[1] == 0x5c <==> location[1] == '\\') by {
            assert((value[1] as char) as u8 == value[1]);
        }
    }
}

/// An absolute URI is on the origin exactly if its scheme and its authority are those of
/// the origin, in whatever case; its place is then its path and query, or the root.
pub proof fn absolute_locations_name_their_origin(
    scheme: Seq<char>,
    host: Seq<char>,
    value: Seq<u8>,
)
    requires
        http::visible(value),
        value.len() == 0 || value[0] != 0x2f,
    ensures
        ({
            let place = same_origin(scheme, host, value);
            match parsed_uri(http::ascii_text(value)) {
                None => place is None,
                Some((s, a, p)) => {
                    let path = match p {
                        Some(path) => vstd::utf8::encode_utf8(path),
                        None => vstd::utf8::encode_utf8("/"@),
                    };
                    if s is Some && a is Some && text::lowercase(s->0) == text::lowercase(scheme)
                        && text::lowercase(a->0) == text::lowercase(host) && http::valid_value(
                        path,
                    ) {
                        place == Some(path)
                    } else {
                        place is None
                    }
                },
            }
        }),
{
    let location = http::ascii_text(value);
    if value.len() > 0 {
        assert(location[0] == value[0] as char);
        assert((value[0] as char) as u8 == value[0]);
        assert(location[0] != '/');
    }
}

/// The methods of a path are listed in order with a comma and a space between any two:
/// the list of two lists is the one, the separator and the other.
pub proof fn methods_are_listed_in_order(a: Seq<Seq<char>>, b: Seq<Seq<char>>)
    ensures
        listed(Seq::empty()) == Seq::<char>::empty(),
        a.len() == 1 ==> listed(a) == a[0],
        a.len() > 0 && b.len() > 0 ==> listed(a + b) == listed(a) + seq![',', ' '] + listed(b),
    decreases b.len(),
{
    reveal_strlit(", ");
    assert(", "@ =~= seq![',', ' ']);
    if a.len() > 0 && b.len() > 0 {
        assert((a + b).drop_last() =~= a + b.drop_last());
        assert((a + b).last() == b.last());
        if b.len() == 1 {
            assert(a + b.drop_last() =~= a);
        } else {
            methods_are_listed_in_order(a, b.drop_last());
        }
        assert(listed(a + b) =~= listed(a) + seq![',', ' '] + listed(b));
    }
}

/// A response whose location is on this origin and does not echo the referrer is settled
/// already: nothing of it changes.
pub proof fn settled_responses_keep_their_redirect(
    response: &mut NtexServerResponse,
    accepts_html: bool,
    referrer: &Option<HeaderValue>,
    scheme: &str,
    host: &str,
)
    requires
        call_ensures(settle_redirect, (response, accepts_html, referrer, scheme, host), ()),
        http::header_fields(old(response).headers).contains_key("location"@),
        same_origin(
            scheme@,
            host@,
            http::header_fields(old(response).headers)["location"@][0],
        ) is Some,
        referrer matches Some(r) ==> http::header_fields(old(response).headers)["location"@][0]
            != r@ && http::header_fields(old(response).headers)["location"@][0] != r@.push(0x3f),
    ensures
        final(response).status == old(response).status,
        http::header_fields(final(response).headers) == http::header_fields(old(response).headers),
{
    let head = head_of(*old(response));
    let given = match *referrer {
        Some(r) => Some(r@),
        None => None,
    };
    own_redirects_are_kept(head, accepts_html, given, scheme@, host@);
}

/// No request leaves the origin by way of a server function: settling drops a location
/// that is not on it, and reports no failure as a success.
pub proof fn settling_drops_foreign_redirects(
    response: &mut NtexServerResponse,
    referrer: &Option<HeaderValue>,
    scheme: &str,
    host: &str,
)
    requires
        call_ensures(settle_redirect, (response, false, referrer, scheme, host), ()),
        http::header_fields(old(response).headers).contains_key("location"@),
        same_origin(
            scheme@,
            host@,
            http::header_fields(old(response).headers)["location"@][0],
        ) is None,
    ensures
        http::header_fields(final(response).headers) == http::header_fields(
            old(response).headers,
        ).remove("location"@),
        !(300 <= old(response).status < 400) ==> final(response).status == old(response).status,
        300 <= old(response).status < 400 ==> final(response).status == (if http::header_fields(
            old(response).headers,
        ).contains_key("serverfnerror"@) {
            500u16
        } else {
            200u16
        }),
{
    let head = head_of(*old(response));
    let given = match *referrer {
        Some(r) => Some(r@),
        None => None,
    };
    foreign_redirects_are_dropped(head, false, given, scheme@, host@);
}

/// A location echoes the referrer exactly if it is the same text, or the same with a bare
/// question mark behind it.
pub proof fn echoes_are_recognized(location: &HeaderValue, referrer: &HeaderValue, b: bool)
    requires
        call_ensures(location_matches_referrer, (location, referrer), b),
        http::visible(referrer@),
    ensures
        b <==> location@ == referrer@ || location@ == referrer@.push(0x3f),
{
    lemma_echoes(location@, referrer@);
}

/// A path that no function is registered at is a bad request, and any other is told which
/// methods it takes.
pub proof fn unmatched_requests_are_told_the_methods(
    path: &str,
    method: &str,
    allowed: &Vec<String>,
    refusal: Refusal,
)
    requires
        call_ensures(unmatched_response, (path, method, allowed), refusal),
    ensures
        allowed@.len() == 0 <==> refusal.status == 400,
        allowed@.len() > 0 <==> refusal.status == 405,
        allowed@.len() == 0 <==> refusal.allow is None,
        allowed@.len() == 1 ==> refusal.allow is Some && refusal.allow->0@ == allowed@[0]@,
{
    methods_are_listed_in_order(text::strings(allowed@), Seq::empty());
    assert(text::strings(allowed@).len() == allowed@.len());
}

/// A function runs exactly if it is registered and the declared body is within the limit.
/// A body over the limit is refused as too large, whether or not a function takes it; a
/// path that takes other methods is told which.
pub proof fn requests_are_dispatched_by_size_and_method(
    headers: &HeaderMap,
    limit: usize,
    registered: bool,
    path: &str,
    method: &str,
    allowed: &Vec<String>,
    decision: Dispatch,
    refused: bool,
)
    requires
        call_ensures(config::content_length_exceeds, (headers, limit), refused),
        call_ensures(dispatch, (headers, limit, registered, path, method, allowed), decision),
    ensures
        decision is Run <==> registered && !refused,
        decision matches Dispatch::Refuse(refusal) ==> {
            &&& refusal.status == 413 <==> refused
            &&& refusal.status == 405 <==> !refused && allowed@.len() > 0
            &&& refusal.status == 400 <==> !refused && allowed@.len() == 0
            &&& refusal.allow is Some <==> refusal.status == 405
        },
{
}

/// An error of the adapter keeps its status through the overrides of the application; any
/// other response takes the status that was set.
pub proof fn adapter_errors_keep_their_status(
    head: &mut NtexResponse,
    adapter_error: bool,
    options: &mut ResponseOptions,
)
    requires
        call_ensures(complete_dispatch, (head, adapter_error, options), ()),
    ensures
        adapter_error ==> final(head).status == old(head).status,
        old(options).parts.status is None ==> final(head).status == old(head).status,
        !adapter_error && old(options).parts.status is Some ==> final(head).status == old(
            options,
        ).parts.status->0,
{
}

/// What is said about a request that no function takes names its path, and its method
/// where only that is wrong.
pub proof fn refusals_name_the_path(
    path: Seq<char>,
    other: Seq<char>,
    method: Seq<char>,
)
    ensures
        unknown_path_text(path) == unknown_path_text(other) ==> path == other,
        wrong_method_text(path, method) == wrong_method_text(other, method) ==> path == other,
        wrong_method_text(path, method).len() > path.len() + method.len(),
        wrong_method_text(path, method).last() == '.',
        wrong_method_text(path, method).drop_last().skip(
            wrong_method_text(path, method).len() - 1 - method.len(),
        ) == method,
{
    reveal_strlit(".");
    let a = "Could not find a server function at the route "@;
    let b = "Server function at route "@;
    let c = " does not accept method "@;
    let hint = UNKNOWN_PATH_HINT@;
    let line = wrong_method_text(path, method);
    assert(unknown_path_text(path).len() == a.len() + path.len() + hint.len());
    assert(unknown_path_text(other).len() == a.len() + other.len() + hint.len());
    assert(line.len() == b.len() + path.len() + c.len() + method.len() + 1);
    assert(wrong_method_text(other, method).len() == b.len() + other.len() + c.len() + method.len()
        + 1);
    if unknown_path_text(path) == unknown_path_text(other) {
        assert(unknown_path_text(path).subrange(a.len() as int, (a.len() + path.len()) as int)
            =~= path);
        assert(unknown_path_text(other).subrange(a.len() as int, (a.len() + other.len()) as int)
            =~= other);
    }
    if line == wrong_method_text(other, method) {
        assert(line.subrange(b.len() as int, (b.len() + path.len()) as int) =~= path);
        assert(wrong_method_text(other, method).subrange(
            b.len() as int,
            (b.len() + other.len()) as int,
        ) =~= other);
    }
    assert(line.drop_last().skip(line.len() - 1 - method.len()) =~= method);
}

} // verus!
