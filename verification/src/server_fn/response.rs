//! The response that a server function produces.

use crate::http::{self, HeaderValue, StatusCode};
use crate::response::NtexResponse;
use ntex::http::HeaderMap;
use vstd::prelude::*;

verus! {

/// The field by which a response is marked as a failure of its server function.
pub const SERVER_FN_ERROR_HEADER: &'static str = "serverfnerror";

/// The head of a server function's response.
pub struct NtexServerResponse {
    pub status: StatusCode,
    pub headers: HeaderMap,
}

impl NtexServerResponse {
    /// The head of a success with a body of a content type; none if that is no legal
    /// header value.
    pub fn try_from_bytes(content_type: &str) -> (head: Option<NtexServerResponse>)
        ensures
            match head {
                Some(head) => {
                    &&& http::valid_value(vstd::utf8::encode_utf8(content_type@))
                    &&& head.status == http::OK
                    &&& http::header_fields(head.headers) == map![
                        "content-type"@ => seq![vstd::utf8::encode_utf8(content_type@)],
                    ]
                },
                None => !http::valid_value(vstd::utf8::encode_utf8(content_type@)),
            },
    {
        match HeaderValue::from_text(content_type) {
            Some(value) => {
                let mut headers = http::empty_headers();
                proof {
                    http::lemma_known_names();
                }
                http::insert_field(&mut headers, "content-type", &value);
                proof {
                    assert(http::header_fields(headers) =~= map![
                        "content-type"@ => seq![vstd::utf8::encode_utf8(content_type@)],
                    ]);
                }
                Some(NtexServerResponse { status: http::OK, headers })
            },
            None => None,
        }
    }

    /// The head of a failure of the server function at a path. The path marks it as
    /// one; none if it is no legal header value.
    pub fn error_response(path: &str) -> (head: Option<NtexServerResponse>)
        ensures
            match head {
                Some(head) => {
                    &&& http::valid_value(vstd::utf8::encode_utf8(path@))
                    &&& head.status == http::INTERNAL_SERVER_ERROR
                    &&& http::header_fields(head.headers) == map![
                        "serverfnerror"@ => seq![vstd::utf8::encode_utf8(path@)],
                    ]
                },
                None => !http::valid_value(vstd::utf8::encode_utf8(path@)),
            },
    {
        match HeaderValue::from_text(path) {
            Some(value) => {
                let mut headers = http::empty_headers();
                proof {
                    http::lemma_known_names();
                }
                http::insert_field(&mut headers, SERVER_FN_ERROR_HEADER, &value);
                proof {
                    assert(http::header_fields(headers) =~= map![
                        "serverfnerror"@ => seq![vstd::utf8::encode_utf8(path@)],
                    ]);
                }
                Some(NtexServerResponse { status: http::INTERNAL_SERVER_ERROR, headers })
            },
            None => None,
        }
    }

    /// The response head that the adapter goes on with.
    pub fn take(self) -> (head: NtexResponse)
        ensures
            head.status == self.status,
            head.headers == self.headers,
    {
        NtexResponse { status: self.status, headers: self.headers }
    }

    /// Sets the content type. A text that is no legal header value is ignored.
    pub fn content_type(&mut self, content_type: &str) -> (applied: bool)
        ensures
            applied == http::valid_value(vstd::utf8::encode_utf8(content_type@)),
            final(self).status == old(self).status,
            http::header_fields(final(self).headers) == (if applied {
                http::header_fields(old(self).headers).insert(
                    "content-type"@,
                    seq![vstd::utf8::encode_utf8(content_type@)],
                )
            } else {
                http::header_fields(old(self).headers)
            }),
    {
        match HeaderValue::from_text(content_type) {
            Some(value) => {
                proof {
                    http::lemma_known_names();
                }
                http::insert_field(&mut self.headers, "content-type", &value);
                true
            },
            None => false,
        }
    }

    /// Redirects with `302 Found`. A path that is no legal header value is ignored.
    pub fn redirect(&mut self, path: &str) -> (applied: bool)
        ensures
            applied == http::valid_value(vstd::utf8::encode_utf8(path@)),
            applied ==> {
                &&& final(self).status == http::FOUND
                &&& http::header_fields(final(self).headers) == http::header_fields(
                    old(self).headers,
                ).insert("location"@, seq![vstd::utf8::encode_utf8(path@)])
            },
            !applied ==> {
                &&& final(self).status == old(self).status
                &&& http::header_fields(final(self).headers) == http::header_fields(
                    old(self).headers,
                )
            },
    {
        match HeaderValue::from_text(path) {
            Some(value) => {
                proof {
                    http::lemma_known_names();
                }
                self.status = http::FOUND;
                http::insert_field(&mut self.headers, "location", &value);
                true
            },
            None => false,
        }
    }
}

/// A response is a success with its type, and an error is a failure that names its path;
/// text that is no legal value makes neither.
pub proof fn responses_say_what_they_are(
    text: &str,
    head: Option<NtexServerResponse>,
    error: Option<NtexServerResponse>,
)
    requires
        call_ensures(NtexServerResponse::try_from_bytes, (text,), head),
        call_ensures(NtexServerResponse::error_response, (text,), error),
    ensures
        head is Some <==> http::valid_value(vstd::utf8::encode_utf8(text@)),
        error is Some <==> head is Some,
        head matches Some(h) ==> h.status == 200 && http::header_fields(h.headers).contains_key(
            "content-type"@,
        ) && http::header_fields(h.headers)["content-type"@] == seq![
            vstd::utf8::encode_utf8(text@),
        ],
        error matches Some(e) ==> e.status == 500 && http::header_fields(e.headers).contains_key(
            "serverfnerror"@,
        ) && http::header_fields(e.headers)["serverfnerror"@] == seq![
            vstd::utf8::encode_utf8(text@),
        ],
{
}

/// The last redirect of a response counts, with `302 Found`; other fields stay.
pub proof fn the_last_redirect_counts(
    response: &mut NtexServerResponse,
    later: &mut NtexServerResponse,
    first: &str,
    second: &str,
    r: bool,
    s: bool,
    name: Seq<char>,
)
    requires
        call_ensures(NtexServerResponse::redirect, (response, first), r),
        *old(later) == *final(response),
        call_ensures(NtexServerResponse::redirect, (later, second), s),
    ensures
        s ==> final(later).status == 302 && http::header_fields(final(later).headers)["location"@]
            == seq![vstd::utf8::encode_utf8(second@)],
        r && !s ==> final(later).status == 302 && http::header_fields(
            final(later).headers,
        )["location"@] == seq![vstd::utf8::encode_utf8(first@)],
        !r && !s ==> final(later).status == old(response).status,
        s <==> http::valid_value(vstd::utf8::encode_utf8(second@)),
        name != "location"@ ==> http::header_fields(final(later).headers).contains_key(name)
            == http::header_fields(old(response).headers).contains_key(name),
{
}

} // verus!
