//! Serving a static route.

use crate::http::{self, StatusCode};
use crate::response::{self, parse_media_range, NtexResponse, OwnFields, ResponseParts};
use crate::text;
use ntex::http::HeaderMap;
use vstd::prelude::*;

verus! {

// ---------------------------------------------------------------------------
// The course of a request
// ---------------------------------------------------------------------------
/// What happened last while a request was served.
#[derive(Clone, Copy, Debug, PartialEq, Eq, Structural)]
pub enum ServeEvent {
    /// The path was looked at; whether it names a page that may be stored.
    Named(bool),
    /// The stored page was looked for; whether it is there and consistent.
    Opened(bool),
    /// The page was generated and published.
    Published,
    /// The page was generated, and is handed over without being published.
    Inline,
    /// The page was not generated; whether for want of room.
    Refused { admission: bool },
    /// The published page was looked for.
    Reopened(bool),
}

/// What to do next.
#[derive(Clone, Copy, Debug, PartialEq, Eq, Structural)]
pub enum ServeAction {
    /// Look for the stored page.
    Open,
    /// Generate the page, or join the work that does.
    Generate,
    /// Look for the page once more.
    Reopen,
    /// Serve the stored page.
    File,
    /// Serve the page that was handed over.
    Page,
    /// An empty response.
    Bare(StatusCode),
}

/// What comes next.
pub open spec fn serve_action(event: ServeEvent) -> ServeAction {
    match event {
        ServeEvent::Named(true) => ServeAction::Open,
        ServeEvent::Named(false) => ServeAction::Bare(http::NOT_FOUND),
        ServeEvent::Opened(true) => ServeAction::File,
        ServeEvent::Opened(false) => ServeAction::Generate,
        ServeEvent::Published => ServeAction::Reopen,
        ServeEvent::Inline => ServeAction::Page,
        ServeEvent::Refused { admission } => ServeAction::Bare(
            if admission {
                http::SERVICE_UNAVAILABLE
            } else {
                http::INTERNAL_SERVER_ERROR
            },
        ),
        ServeEvent::Reopened(true) => ServeAction::File,
        ServeEvent::Reopened(false) => ServeAction::Bare(http::INTERNAL_SERVER_ERROR),
    }
}

/// Decides the next step of serving a request.
pub fn handle_static_route(event: ServeEvent) -> (action: ServeAction)
    ensures
        action == serve_action(event),
{
    match event {
        ServeEvent::Named(named) => if named {
            ServeAction::Open
        } else {
            ServeAction::Bare(http::NOT_FOUND)
        },
        ServeEvent::Opened(found) => if found {
            ServeAction::File
        } else {
            ServeAction::Generate
        },
        ServeEvent::Published => ServeAction::Reopen,
        ServeEvent::Inline => ServeAction::Page,
        ServeEvent::Refused { admission } => if admission {
            ServeAction::Bare(http::SERVICE_UNAVAILABLE)
        } else {
            ServeAction::Bare(http::INTERNAL_SERVER_ERROR)
        },
        ServeEvent::Reopened(found) => if found {
            ServeAction::File
        } else {
            ServeAction::Bare(http::INTERNAL_SERVER_ERROR)
        },
    }
}

/// Whether a rendered page is an error page, which is never published.
pub fn was_error_status(status: Option<StatusCode>) -> (error: bool)
    ensures
        error == (status matches Some(s) && http::failure(s)),
{
    match status {
        Some(status) => http::is_failure(status),
        None => false,
    }
}

// ---------------------------------------------------------------------------
// The response
// ---------------------------------------------------------------------------
/// The head of the response with a page that was handed over. Such a page is an error
/// page, so this is not a success; the status of the page goes over it.
pub fn inline_page() -> (head: NtexResponse)
    ensures
        head.status == http::NOT_FOUND,
        http::header_fields(head.headers) == map![
            "content-type"@ => seq![vstd::utf8::encode_utf8("text/html"@)],
        ],
{
    proof {
        reveal_strlit("text/html");
    }
    response::typed_head(http::NOT_FOUND, "text/html")
}

/// The status under which a stored page is served.
pub fn base_status(parts: &Option<ResponseParts>) -> (status: StatusCode)
    ensures
        status == (match *parts {
            Some(parts) => match parts.status {
                Some(status) => status,
                None => http::OK,
            },
            None => http::OK,
        }),
{
    match parts {
        Some(parts) => match parts.status {
            Some(status) => status,
            None => http::OK,
        },
        None => http::OK,
    }
}

/// The media type that the last of the values selects, if it is one.
pub open spec fn selected_type(values: Seq<Seq<u8>>) -> Option<Seq<char>> {
    if values.len() == 0 {
        None
    } else {
        match http::value_text(values.last()) {
            Some(line) => if response::media_range(line) is Some {
                Some(line)
            } else {
                None
            },
            None => None,
        }
    }
}

/// The media type under which a stored page is served, if its metadata select one.
/// Without, the name of the file tells.
pub fn selected_media_type(headers: &HeaderMap) -> (media: Option<String>)
    ensures
        text::optional_text(media) == selected_type(http::values_of(*headers, "content-type"@)),
{
    let values = http::header_values(headers, "content-type");
    proof {
        assert(http::value_bytes(values@).len() == values@.len());
    }
    if values.len() == 0 {
        return None;
    }
    proof {
        assert(http::value_bytes(values@)[values@.len() - 1] == values@[values@.len() - 1]@);
    }
    match values[values.len() - 1].to_text() {
        Some(line) => match parse_media_range(line.as_str()) {
            Some(_) => Some(line),
            None => None,
        },
        None => None,
    }
}

/// Whether the language of a page is left out: the client has it already.
pub open spec fn omits_language(status: StatusCode, if_range: bool) -> bool {
    status == http::NOT_MODIFIED || (status == http::PARTIAL_CONTENT && if_range)
}

/// The stored fields that join the response that was made from the file: that
/// response has described its own bytes.
pub open spec fn joining(
    fields: Map<Seq<char>, Seq<Seq<u8>>>,
    status: StatusCode,
    if_range: bool,
) -> Map<Seq<char>, Seq<Seq<u8>>> {
    response::kept_fields(
        fields,
        OwnFields::Served { omit_language: omits_language(status, if_range) },
    )
}

/// Completes the response of a static route with the stored metadata of its page.
/// `if_range` tells whether the request had an `If-Range`.
pub fn complete_static_response(
    head: &mut NtexResponse,
    parts: ResponseParts,
    from_file: bool,
    if_range: bool,
)
    ensures
        final(head).status == (if from_file || parts.status is None {
            old(head).status
        } else {
            parts.status->0
        }),
        http::header_fields(final(head).headers) == response::merged(
            http::header_fields(old(head).headers),
            if from_file {
                joining(http::header_fields(parts.headers), old(head).status, if_range)
            } else {
                http::header_fields(parts.headers)
            },
        ),
{
    let mut parts = parts;
    if from_file {
        let omit_language = head.status == http::NOT_MODIFIED || (head.status
            == http::PARTIAL_CONTENT && if_range);
        parts.strip(OwnFields::Served { omit_language });
    }
    head.extend_response_parts(parts);
}

// ---------------------------------------------------------------------------
// Laws
// ---------------------------------------------------------------------------
/// The metadata of a page never change the fields by which the response from its file
/// describes its bytes.
pub proof fn stored_metadata_keep_the_bytes_described(
    own: Map<Seq<char>, Seq<Seq<u8>>>,
    stored: Map<Seq<char>, Seq<Seq<u8>>>,
    status: StatusCode,
    if_range: bool,
    name: Seq<char>,
)
    requires
        response::describes_body(name),
    ensures
        response::merged(own, joining(stored, status, if_range)).contains_key(name)
            == own.contains_key(name),
        own.contains_key(name) ==> response::merged(own, joining(stored, status, if_range))[name]
            == own[name],
{
}

/// A conditional response keeps the location of its representation.
pub proof fn content_location_is_kept(
    stored: Map<Seq<char>, Seq<Seq<u8>>>,
    status: StatusCode,
    if_range: bool,
)
    requires
        stored.contains_key("content-location"@),
    ensures
        joining(stored, status, if_range).contains_key("content-location"@),
        joining(stored, status, if_range)["content-location"@] == stored["content-location"@],
{
    reveal_strlit("content-location");
    reveal_strlit("content-language");
    reveal_strlit("content-length");
    reveal_strlit("content-type");
    reveal_strlit("content-encoding");
    reveal_strlit("content-range");
    reveal_strlit("transfer-encoding");
    reveal_strlit("accept-ranges");
    reveal_strlit("etag");
    reveal_strlit("last-modified");
    reveal_strlit("content-digest");
    reveal_strlit("digest");
    let name = "content-location"@;
    assert(name.len() == 16 && name[8] == 'l');
    assert(name[9] == 'o' && "content-language"@[9] == 'a');
    assert("content-encoding"@[8] == 'e');
}

/// A page that is found is served from its file, whether it was there or was published
/// just now. It is generated only where it may be stored and is not there, and looked for
/// again only once it was published.
pub proof fn pages_are_generated_only_where_missing(event: ServeEvent)
    ensures
        serve_action(event) == ServeAction::File <==> event == ServeEvent::Opened(true) || event
            == ServeEvent::Reopened(true),
        serve_action(event) == ServeAction::Generate <==> event == ServeEvent::Opened(false),
        serve_action(event) == ServeAction::Open <==> event == ServeEvent::Named(true),
        serve_action(event) == ServeAction::Reopen <==> event == ServeEvent::Published,
        serve_action(event) == ServeAction::Page <==> event == ServeEvent::Inline,
{
}

/// A path that names no page is not found. A page for which there is no room may be asked
/// for again; any other page that cannot be had is a failure.
pub proof fn missing_pages_are_told_apart(event: ServeEvent)
    ensures
        serve_action(event) == ServeAction::Bare(404u16) <==> event == ServeEvent::Named(false),
        serve_action(event) == ServeAction::Bare(503u16) <==> event == (ServeEvent::Refused {
            admission: true,
        }),
        serve_action(event) == ServeAction::Bare(500u16) <==> event == (ServeEvent::Refused {
            admission: false,
        }) || event == ServeEvent::Reopened(false),
{
}

/// The last value alone selects the media type, and does so exactly if it reads as one;
/// the type is then the value as it stands.
pub proof fn the_last_type_is_selected(values: Seq<Seq<u8>>, last: Seq<u8>)
    ensures
        selected_type(Seq::empty()) is None,
        selected_type(values.push(last)) == selected_type(seq![last]),
        selected_type(seq![last]) is Some <==> http::visible(last) && response::media_range(
            http::ascii_text(last),
        ) is Some,
        selected_type(seq![last]) is Some ==> selected_type(seq![last]) == Some(
            http::ascii_text(last),
        ),
{
    assert(values.push(last).last() == last);
    assert(seq![last].last() == last);
}

/// The language of a page is left out where the client has it already, with `304` and
/// with a part that it asked for under a condition, and is kept otherwise.
pub proof fn the_language_is_said_once(
    stored: Map<Seq<char>, Seq<Seq<u8>>>,
    status: StatusCode,
    if_range: bool,
)
    requires
        stored.contains_key("content-language"@),
    ensures
        joining(stored, status, if_range).contains_key("content-language"@) <==> !(status == 304
            || (status == 206 && if_range)),
        joining(stored, status, if_range).contains_key("content-language"@) ==> joining(
            stored,
            status,
            if_range,
        )["content-language"@] == stored["content-language"@],
{
    reveal_strlit("content-language");
    reveal_strlit("content-length");
    reveal_strlit("content-type");
    reveal_strlit("content-encoding");
    reveal_strlit("content-range");
    reveal_strlit("transfer-encoding");
    reveal_strlit("accept-ranges");
    reveal_strlit("etag");
    reveal_strlit("last-modified");
    reveal_strlit("content-digest");
    reveal_strlit("digest");
    let name = "content-language"@;
    assert(name.len() == 16 && name[8] == 'l');
    assert("content-encoding"@[8] == 'e');
    assert("content-length"@.len() == 14 && "content-type"@.len() == 12);
    assert("content-range"@.len() == 13 && "transfer-encoding"@.len() == 17);
    assert("accept-ranges"@.len() == 13 && "etag"@.len() == 4 && "last-modified"@.len() == 13);
    assert("content-digest"@.len() == 14 && "digest"@.len() == 6);
    assert(!response::describes_body(name));
}

/// Cookies, links, hints on variation and challenges that were stored with a page join
/// its response.
pub proof fn stored_cookies_join(
    stored: Map<Seq<char>, Seq<Seq<u8>>>,
    status: StatusCode,
    if_range: bool,
    name: Seq<char>,
)
    requires
        stored.contains_key(name),
        name == "set-cookie"@ || name == "link"@ || name == "vary"@ || name == "www-authenticate"@,
    ensures
        joining(stored, status, if_range).contains_key(name),
        joining(stored, status, if_range)[name] == stored[name],
{
    response::cumulative_fields_always_join(
        stored,
        OwnFields::Served { omit_language: omits_language(status, if_range) },
        name,
    );
}

/// A page is served under the status that was stored with it, and as a plain success where
/// none was. Pages of client and server errors are never published.
pub proof fn stored_statuses_are_served(
    parts: &Option<ResponseParts>,
    status: StatusCode,
    rendered: Option<StatusCode>,
    error: bool,
)
    requires
        call_ensures(base_status, (parts,), status),
        call_ensures(was_error_status, (rendered,), error),
    ensures
        *parts is None ==> status == 200,
        *parts is Some && (*parts)->0.status is None ==> status == 200,
        *parts is Some && (*parts)->0.status is Some ==> status == (*parts)->0.status->0,
        rendered is None ==> !error,
        rendered matches Some(s) ==> (error <==> s / 100 == 4 || s / 100 == 5),
{
}

/// The response from a file keeps its status and its description, whatever is stored; a
/// page that was handed over takes the stored status.
pub proof fn stored_metadata_complete_the_response(
    head: &mut NtexResponse,
    parts: ResponseParts,
    from_file: bool,
    if_range: bool,
    name: Seq<char>,
)
    requires
        call_ensures(complete_static_response, (head, parts, from_file, if_range), ()),
    ensures
        from_file ==> final(head).status == old(head).status,
        !from_file && parts.status is Some ==> final(head).status == parts.status->0,
        !from_file && parts.status is None ==> final(head).status == old(head).status,
        from_file && response::describes_body(name) ==> http::header_fields(
            final(head).headers,
        ).contains_key(name) == http::header_fields(old(head).headers).contains_key(name) && (
        http::header_fields(old(head).headers).contains_key(name) ==> http::header_fields(
            final(head).headers,
        )[name] == http::header_fields(old(head).headers)[name]),
{
    lemma_described(
        http::header_fields(old(head).headers),
        http::header_fields(parts.headers),
        old(head).status,
        if_range,
        name,
    );
}

proof fn lemma_described(
    own: Map<Seq<char>, Seq<Seq<u8>>>,
    stored: Map<Seq<char>, Seq<Seq<u8>>>,
    status: StatusCode,
    if_range: bool,
    name: Seq<char>,
)
    ensures
        response::describes_body(name) ==> response::merged(
            own,
            joining(stored, status, if_range),
        ).contains_key(name) == own.contains_key(name) && (own.contains_key(name)
            ==> response::merged(own, joining(stored, status, if_range))[name] == own[name]),
{
    if response::describes_body(name) {
        stored_metadata_keep_the_bytes_described(own, stored, status, if_range, name);
    }
}

} // verus!
