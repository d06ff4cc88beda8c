//! Response overrides, and how they join the response that the adapter builds.

use crate::http::{self, HeaderName, HeaderValue, StatusCode};
use crate::text::{self, same_text, split_on, trim};
use ntex::http::HeaderMap;
use vstd::prelude::*;

verus! {

/// Overrides for the status and the headers of a response.
pub struct ResponseParts {
    /// When set, overrides the status of the response.
    pub status: Option<StatusCode>,
    /// Extra headers.
    pub headers: HeaderMap,
}

impl ResponseParts {
    /// Nothing is overridden.
    pub fn new() -> (parts: ResponseParts)
        ensures
            parts.status is None,
            http::header_fields(parts.headers).is_empty(),
    {
        ResponseParts { status: None, headers: http::empty_headers() }
    }

    /// Inserts a header, overwriting any previous value with the same key.
    pub fn insert_header(&mut self, key: HeaderName, value: HeaderValue)
        ensures
            final(self).status == old(self).status,
            http::header_fields(final(self).headers) == http::header_fields(
                old(self).headers,
            ).insert(key@, seq![value@]),
    {
        http::insert_named(&mut self.headers, &key, &value);
    }

    /// Appends a header, leaving any header with the same key intact.
    pub fn append_header(&mut self, key: HeaderName, value: HeaderValue)
        ensures
            final(self).status == old(self).status,
            http::header_fields(final(self).headers) == http::header_fields(
                old(self).headers,
            ).insert(
                key@,
                http::stored_values(http::header_fields(old(self).headers), key@).push(value@),
            ),
    {
        http::append_named(&mut self.headers, &key, &value);
    }
}

/// The override that user code fills while a response is prepared.
pub struct ResponseOptions {
    pub parts: ResponseParts,
}

impl ResponseOptions {
    /// Nothing is overridden.
    pub fn new() -> (options: ResponseOptions)
        ensures
            options.parts.status is None,
            http::header_fields(options.parts.headers).is_empty(),
    {
        ResponseOptions { parts: ResponseParts::new() }
    }

    /// Replaces the parts wholesale.
    pub fn overwrite(&mut self, parts: ResponseParts)
        ensures
            final(self).parts == parts,
    {
        self.parts = parts;
    }

    /// Sets the response status.
    pub fn set_status(&mut self, status: StatusCode)
        ensures
            final(self).parts.status == Some(status),
            final(self).parts.headers == old(self).parts.headers,
    {
        self.parts.status = Some(status);
    }

    /// Inserts a header, overwriting any previous value with the same key.
    pub fn insert_header(&mut self, key: HeaderName, value: HeaderValue)
        ensures
            final(self).parts.status == old(self).parts.status,
            http::header_fields(final(self).parts.headers) == http::header_fields(
                old(self).parts.headers,
            ).insert(key@, seq![value@]),
    {
        self.parts.insert_header(key, value);
    }

    /// Appends a header, leaving any header with the same key intact.
    pub fn append_header(&mut self, key: HeaderName, value: HeaderValue)
        ensures
            final(self).parts.status == old(self).parts.status,
            http::header_fields(final(self).parts.headers) == http::header_fields(
                old(self).parts.headers,
            ).insert(
                key@,
                http::stored_values(http::header_fields(old(self).parts.headers), key@).push(value@),
            ),
    {
        self.parts.append_header(key, value);
    }

    /// Takes the overrides out and leaves none behind.
    pub fn take(&mut self) -> (parts: ResponseParts)
        ensures
            parts == old(self).parts,
            final(self).parts.status is None,
            http::header_fields(final(self).parts.headers).is_empty(),
    {
        let mut parts = ResponseParts::new();
        std::mem::swap(&mut parts, &mut self.parts);
        parts
    }
}

// ---------------------------------------------------------------------------
// Merging headers
// ---------------------------------------------------------------------------
/// How a header of the application joins those of the framework.
#[derive(Clone, Copy, Debug, PartialEq, Eq, Structural)]
pub enum HeaderMerge {
    /// The last value replaces what is there.
    ReplaceOne,
    /// All values replace what is there.
    ReplaceList,
    /// All values are added to what is there.
    Append,
}

/// Fields that describe the bytes that a response carries.
pub open spec fn describes_body(name: Seq<char>) -> bool {
    ||| name == "content-length"@
    ||| name == "content-type"@
    ||| name == "content-encoding"@
    ||| name == "content-range"@
    ||| name == "transfer-encoding"@
    ||| name == "accept-ranges"@
    ||| name == "etag"@
    ||| name == "last-modified"@
    ||| name == "content-digest"@
    ||| name == "digest"@
}

/// Fields that identify the selected representation as a whole.
pub open spec fn identifies_representation(name: Seq<char>) -> bool {
    ||| name == "content-language"@
    ||| name == "content-location"@
    ||| name == "repr-digest"@
    ||| name == "sec-websocket-version"@
}

/// Fields about the representation that hold a list.
pub open spec fn describes_as_list(name: Seq<char>) -> bool {
    ||| name == "content-encoding"@
    ||| name == "transfer-encoding"@
    ||| name == "accept-ranges"@
    ||| name == "content-language"@
}

/// Other fields that hold one value.
pub open spec fn single_valued(name: Seq<char>) -> bool {
    ||| name == "location"@
    ||| name == "expires"@
    ||| name == "content-disposition"@
    ||| name == "retry-after"@
    ||| name == "age"@
    ||| name == "date"@
    ||| name == "server"@
    ||| name == "strict-transport-security"@
    ||| name == "x-frame-options"@
    ||| name == "x-content-type-options"@
    ||| name == "referrer-policy"@
}

/// How a field of the application joins the framework's own: fields about the
/// representation and single-valued fields replace, every other field is added.
pub open spec fn merge_rule(name: Seq<char>) -> HeaderMerge {
    if describes_body(name) || identifies_representation(name) {
        if describes_as_list(name) {
            HeaderMerge::ReplaceList
        } else {
            HeaderMerge::ReplaceOne
        }
    } else if single_valued(name) {
        HeaderMerge::ReplaceOne
    } else if name == "cache-control"@ {
        HeaderMerge::ReplaceList
    } else {
        HeaderMerge::Append
    }
}

/// Whether a field describes the bytes that a response carries.
pub fn is_representation_header(name: &str) -> (b: bool)
    ensures
        b == describes_body(name@),
{
    same_text(name, "content-length") || same_text(name, "content-type") || same_text(
        name,
        "content-encoding",
    ) || same_text(name, "content-range") || same_text(name, "transfer-encoding") || same_text(
        name,
        "accept-ranges",
    ) || same_text(name, "etag") || same_text(name, "last-modified") || same_text(
        name,
        "content-digest",
    ) || same_text(name, "digest")
}

/// Whether a field identifies the selected representation as a whole.
fn identifies_as_whole(name: &str) -> (b: bool)
    ensures
        b == identifies_representation(name@),
{
    same_text(name, "content-language") || same_text(name, "content-location") || same_text(
        name,
        "repr-digest",
    ) || same_text(name, "sec-websocket-version")
}

/// How a field of the application joins the framework's own.
pub fn header_merge(name: &str) -> (rule: HeaderMerge)
    ensures
        rule == merge_rule(name@),
{
    if is_representation_header(name) || identifies_as_whole(name) {
        if same_text(name, "content-encoding") || same_text(name, "transfer-encoding") || same_text(
            name,
            "accept-ranges",
        ) || same_text(name, "content-language") {
            HeaderMerge::ReplaceList
        } else {
            HeaderMerge::ReplaceOne
        }
    } else if same_text(name, "location") || same_text(name, "expires") || same_text(
        name,
        "content-disposition",
    ) || same_text(name, "retry-after") || same_text(name, "age") || same_text(name, "date")
        || same_text(name, "server") || same_text(name, "strict-transport-security") || same_text(
        name,
        "x-frame-options",
    ) || same_text(name, "x-content-type-options") || same_text(name, "referrer-policy") {
        HeaderMerge::ReplaceOne
    } else if same_text(name, "cache-control") {
        HeaderMerge::ReplaceList
    } else {
        HeaderMerge::Append
    }
}

/// No field about the representation is ever added beside the framework's own.
pub proof fn representation_fields_replace(name: Seq<char>)
    requires
        describes_body(name) || identifies_representation(name),
    ensures
        merge_rule(name) != HeaderMerge::Append,
{
}

/// The values of one field after the merge.
pub open spec fn merged_values(
    rule: HeaderMerge,
    own: Seq<Seq<u8>>,
    extra: Seq<Seq<u8>>,
) -> Seq<Seq<u8>> {
    match rule {
        HeaderMerge::ReplaceOne => seq![extra.last()],
        HeaderMerge::ReplaceList => extra,
        HeaderMerge::Append => own + extra,
    }
}

/// All fields after the fields of `extra` whose names are in `names` have joined.
pub open spec fn merged_on(
    own: Map<Seq<char>, Seq<Seq<u8>>>,
    extra: Map<Seq<char>, Seq<Seq<u8>>>,
    names: Set<Seq<char>>,
) -> Map<Seq<char>, Seq<Seq<u8>>> {
    Map::new(
        |n: Seq<char>| own.contains_key(n) || (extra.contains_key(n) && names.contains(n)),
        |n: Seq<char>|
            if extra.contains_key(n) && names.contains(n) {
                merged_values(
                    merge_rule(n),
                    if own.contains_key(n) {
                        own[n]
                    } else {
                        Seq::empty()
                    },
                    extra[n],
                )
            } else {
                own[n]
            },
    )
}

/// All fields after the fields of `extra` have joined.
pub open spec fn merged(
    own: Map<Seq<char>, Seq<Seq<u8>>>,
    extra: Map<Seq<char>, Seq<Seq<u8>>>,
) -> Map<Seq<char>, Seq<Seq<u8>>> {
    merged_on(own, extra, extra.dom())
}

/// The fields that a response of the adapter owns, so that overrides do not touch
/// them.
#[derive(Clone, Copy, Debug, PartialEq, Eq, Structural)]
pub enum OwnFields {
    /// A response that was made from a file. Where the client has the metadata of the
    /// representation already, its language is left out.
    Served { omit_language: bool },
    /// An error of the adapter in place of the response that was meant.
    Failed,
}

/// Whether an override of a field is kept.
pub open spec fn keeps(own: OwnFields, name: Seq<char>) -> bool {
    match own {
        OwnFields::Served { omit_language } => !describes_body(name) && !(omit_language && name
            == "content-language"@),
        OwnFields::Failed => !describes_body(name) && !identifies_representation(name),
    }
}

/// The overrides that are kept.
pub open spec fn kept_fields(fields: Map<Seq<char>, Seq<Seq<u8>>>, own: OwnFields) -> Map<
    Seq<char>,
    Seq<Seq<u8>>,
> {
    fields.restrict(Set::new(|name: Seq<char>| keeps(own, name)))
}

spec fn kept_among(
    fields: Map<Seq<char>, Seq<Seq<u8>>>,
    names: Seq<Seq<char>>,
    own: OwnFields,
) -> Map<Seq<char>, Seq<Seq<u8>>> {
    fields.restrict(Set::new(|name: Seq<char>| !names.contains(name) || keeps(own, name)))
}

impl ResponseParts {
    /// Drops the status, and the overrides of fields that the response owns.
    pub fn strip(&mut self, own: OwnFields)
        ensures
            final(self).status is None,
            http::header_fields(final(self).headers) == kept_fields(
                http::header_fields(old(self).headers),
                own,
            ),
    {
        self.status = None;
        let names = http::header_names(&self.headers);
        let ghost all = http::header_fields(self.headers);
        let ghost texts = http::name_texts(names@);
        let mut i: usize = 0;
        proof {
            assert(texts.len() == names@.len());
            assert(all =~= kept_among(all, texts.take(0), own));
        }
        while i < names.len()
            invariant
                i <= names.len(),
                texts == http::name_texts(names@),
                texts.len() == names@.len(),
                self.status is None,
                http::header_fields(self.headers) == kept_among(all, texts.take(i as int), own),
            decreases names.len() - i,
        {
            let name = names[i].as_str();
            if !keeps_override(own, name) {
                http::remove_named(&mut self.headers, &names[i]);
            }
            proof {
                assert(texts[i as int] == name@);
                assert(text::lowercase(name@) == name@);
                let less = texts.take(i as int);
                let more = texts.take(i + 1);
                assert forall|n: Seq<char>| #[trigger] more.contains(n) <==> less.contains(n) || n
                    == name@ by {
                    if more.contains(n) {
                        let j: int = choose|j: int| 0 <= j < more.len() && more[j] == n;
                        if j < i {
                            assert(less[j] == n);
                        }
                    }
                    if less.contains(n) {
                        let j: int = choose|j: int| 0 <= j < less.len() && less[j] == n;
                        assert(more[j] == n);
                    }
                    if n == name@ {
                        assert(more[i as int] == n);
                    }
                }
                assert(http::header_fields(self.headers) =~= kept_among(all, more, own));
            }
            i = i + 1;
        }
        proof {
            assert(texts.take(i as int) =~= texts);
            assert forall|n: Seq<char>| #[trigger] all.contains_key(n) implies texts.contains(
                n,
            ) by {
                assert(all.dom().contains(n));
                assert(texts.to_set().contains(n));
            }
            assert(kept_among(all, texts, own) =~= kept_fields(all, own));
        }
    }
}

fn keeps_override(own: OwnFields, name: &str) -> (kept: bool)
    ensures
        kept == keeps(own, name@),
{
    if is_representation_header(name) {
        return false;
    }
    match own {
        OwnFields::Served { omit_language } => !(omit_language && same_text(
            name,
            "content-language",
        )),
        OwnFields::Failed => !identifies_as_whole(name),
    }
}

/// The head of the response that the adapter builds.
pub struct NtexResponse {
    pub status: StatusCode,
    pub headers: HeaderMap,
}

/// The head of a response with a content type and no other field.
pub(crate) fn typed_head(status: StatusCode, content_type: &str) -> (head: NtexResponse)
    requires
        http::visible_text(content_type@),
    ensures
        head.status == status,
        http::header_fields(head.headers) == map![
            "content-type"@ => seq![vstd::utf8::encode_utf8(content_type@)],
        ],
{
    let mut headers = http::empty_headers();
    proof {
        http::lemma_known_names();
        http::lemma_visible_text(content_type@);
    }
    if let Some(value) = HeaderValue::from_text(content_type) {
        http::insert_field(&mut headers, "content-type", &value);
    }
    proof {
        assert(http::header_fields(headers) =~= map![
            "content-type"@ => seq![vstd::utf8::encode_utf8(content_type@)],
        ]);
    }
    NtexResponse { status, headers }
}

/// Appends every value to a field.
pub(crate) fn append_all(headers: &mut HeaderMap, name: &HeaderName, values: &Vec<HeaderValue>)
    requires
        values@.len() > 0,
    ensures
        http::header_fields(*final(headers)) == http::header_fields(*old(headers)).insert(
            name@,
            http::stored_values(http::header_fields(*old(headers)), name@) + http::value_bytes(
                values@,
            ),
        ),
{
    let ghost before = http::header_fields(*headers);
    let ghost own = http::stored_values(before, name@);
    let ghost bytes = http::value_bytes(values@);
    let mut i: usize = 0;
    proof {
        assert(own + bytes.take(0) =~= own);
    }
    while i < values.len()
        invariant
            i <= values.len(),
            bytes == http::value_bytes(values@),
            http::stored_values(http::header_fields(*headers), name@) == own + bytes.take(i as int),
            i == 0 ==> http::header_fields(*headers) == before,
            i > 0 ==> http::header_fields(*headers) == before.insert(
                name@,
                own + bytes.take(i as int),
            ),
        decreases values.len() - i,
    {
        http::append_named(headers, name, &values[i]);
        proof {
            assert(bytes.take(i + 1) =~= bytes.take(i as int).push(values@[i as int]@));
            assert((own + bytes.take(i as int)).push(values@[i as int]@) =~= own + bytes.take(
                i + 1,
            ));
            assert(http::header_fields(*headers) =~= before.insert(name@, own + bytes.take(i + 1)));
        }
        i = i + 1;
    }
    proof {
        assert(bytes.take(i as int) =~= bytes);
    }
}

impl NtexResponse {
    /// Joins the overrides with this response.
    pub fn extend_response_parts(&mut self, parts: ResponseParts)
        ensures
            final(self).status == (match parts.status {
                Some(status) => status,
                None => old(self).status,
            }),
            http::header_fields(final(self).headers) == merged(
                http::header_fields(old(self).headers),
                http::header_fields(parts.headers),
            ),
    {
        let names = http::header_names(&parts.headers);
        let ghost own = http::header_fields(self.headers);
        let ghost extra = http::header_fields(parts.headers);
        let ghost texts = http::name_texts(names@);
        let mut i: usize = 0;
        proof {
            assert(merged_on(own, extra, texts.take(0).to_set()) =~= own);
        }
        while i < names.len()
            invariant
                i <= names.len(),
                texts == http::name_texts(names@),
                texts.no_duplicates(),
                extra == http::header_fields(parts.headers),
                extra.dom().subset_of(texts.to_set()),
                own == http::header_fields(old(self).headers),
                self.status == old(self).status,
                http::header_fields(self.headers) == merged_on(
                    own,
                    extra,
                    texts.take(i as int).to_set(),
                ),
            decreases names.len() - i,
        {
            let name = &names[i];
            let values = http::named_values(&parts.headers, name);
            let ghost done = texts.take(i as int).to_set();
            let ghost next = texts.take(i + 1).to_set();
            let ghost before = http::header_fields(self.headers);
            proof {
                assert(texts[i as int] == name@);
                assert(texts.take(i + 1) =~= texts.take(i as int).push(name@));
                assert(!done.contains(name@)) by {
                    if texts.take(i as int).contains(name@) {
                        let j: int = choose|j: int| 0 <= j < i && texts.take(i as int)[j] == name@;
                        assert(texts[j] == texts[i as int]);
                    }
                }
                assert forall|n: Seq<char>| next.contains(n) <==> done.contains(n) || n
                    == name@ by {
                    let a = texts.take(i as int);
                    let b = texts.take(i + 1);
                    if b.contains(n) {
                        let j: int = choose|j: int| 0 <= j < b.len() && b[j] == n;
                        if j < i {
                            assert(a[j] == n);
                        }
                    }
                    if a.contains(n) {
                        let j: int = choose|j: int| 0 <= j < a.len() && a[j] == n;
                        assert(b[j] == n);
                    }
                    assert(b[i as int] == name@);
                }
            }
            if values.len() > 0 {
                match header_merge(name.as_str()) {
                    HeaderMerge::ReplaceOne => {
                        let last = values.len() - 1;
                        http::insert_named(&mut self.headers, name, &values[last]);
                        proof {
                            assert(http::value_bytes(values@).last() == values@[last as int]@);
                        }
                    },
                    HeaderMerge::ReplaceList => {
                        http::remove_named(&mut self.headers, name);
                        append_all(&mut self.headers, name, &values);
                        proof {
                            assert(Seq::<Seq<u8>>::empty() + http::value_bytes(values@)
                                =~= http::value_bytes(values@));
                        }
                    },
                    HeaderMerge::Append => {
                        append_all(&mut self.headers, name, &values);
                    },
                }
            }
            proof {
                assert(http::header_fields(self.headers) =~= merged_on(own, extra, next));
            }
            i = i + 1;
        }
        proof {
            assert(texts.take(i as int) =~= texts);
            assert(merged_on(own, extra, texts.to_set()) =~= merged(own, extra));
        }
        if let Some(status) = parts.status {
            self.status = status;
        }
    }

    /// Joins the overrides that user code filled, and leaves none behind.
    pub fn extend_response(&mut self, options: &mut ResponseOptions)
        ensures
            final(self).status == (match old(options).parts.status {
                Some(status) => status,
                None => old(self).status,
            }),
            http::header_fields(final(self).headers) == merged(
                http::header_fields(old(self).headers),
                http::header_fields(old(options).parts.headers),
            ),
            final(options).parts.status is None,
            http::header_fields(final(options).parts.headers).is_empty(),
    {
        let parts = options.take();
        self.extend_response_parts(parts);
    }

    /// Joins the overrides that user code filled to an error of the adapter, and leaves
    /// none behind. The error keeps its own status, and the fields that describe it.
    pub fn extend_failed_response(&mut self, options: &mut ResponseOptions)
        ensures
            final(self).status == old(self).status,
            http::header_fields(final(self).headers) == merged(
                http::header_fields(old(self).headers),
                kept_fields(http::header_fields(old(options).parts.headers), OwnFields::Failed),
            ),
            final(options).parts.status is None,
            http::header_fields(final(options).parts.headers).is_empty(),
    {
        let mut parts = options.take();
        parts.strip(OwnFields::Failed);
        self.extend_response_parts(parts);
    }

    /// The head of a page that is streamed.
    pub fn from_stream() -> (head: NtexResponse)
        ensures
            head.status == http::OK,
            http::header_fields(head.headers) == map![
                "content-type"@ => seq![vstd::utf8::encode_utf8("text/html; charset=utf-8"@)],
            ],
    {
        proof {
            reveal_strlit("text/html; charset=utf-8");
        }
        typed_head(http::OK, "text/html; charset=utf-8")
    }

    /// Sets the content type of a response that has none. A text that is no legal
    /// header value is ignored.
    pub fn set_default_content_type(&mut self, content_type: &str)
        ensures
            final(self).status == old(self).status,
            http::header_fields(final(self).headers) == (if !http::has_field(
                old(self).headers,
                "content-type"@,
            ) && http::valid_value(vstd::utf8::encode_utf8(content_type@)) {
                http::header_fields(old(self).headers).insert(
                    "content-type"@,
                    seq![vstd::utf8::encode_utf8(content_type@)],
                )
            } else {
                http::header_fields(old(self).headers)
            }),
    {
        if !http::contains_header(&self.headers, "content-type") {
            if let Some(value) = HeaderValue::from_text(content_type) {
                proof {
                    http::lemma_known_names();
                }
                http::insert_field(&mut self.headers, "content-type", &value);
            }
        }
    }
}

/// An error of the adapter describes itself: no override touches the fields about its
/// representation. All other overrides survive.
pub proof fn failures_describe_themselves(
    own: Map<Seq<char>, Seq<Seq<u8>>>,
    extra: Map<Seq<char>, Seq<Seq<u8>>>,
    name: Seq<char>,
)
    ensures
        ({
            let after = merged(own, kept_fields(extra, OwnFields::Failed));
            if describes_body(name) || identifies_representation(name) {
                &&& after.contains_key(name) == own.contains_key(name)
                &&& own.contains_key(name) ==> after[name] == own[name]
            } else {
                extra.contains_key(name) ==> after.contains_key(name) && after[name] == merged(
                    own,
                    extra,
                )[name]
            }
        }),
{
}

// ---------------------------------------------------------------------------
// Content negotiation for HTML
// ---------------------------------------------------------------------------
/// The top-level type, the subtype and the `q` parameter of a media range, as the
/// `mime` crate reads it; none if it does not parse.
pub uninterp spec fn media_range(range: Seq<char>) -> Option<
    (Seq<char>, Seq<char>, Option<Seq<char>>),
>;

/// `mime::Mime` from a text, with `Mime::type_`, `Mime::subtype` and
/// `Mime::get_param` of `q`: a parse that depends on the text alone.
#[verifier::external_body]
pub(crate) fn parse_media_range(range: &str) -> (media: Option<(String, String, Option<String>)>)
    ensures
        media_texts(media) == media_range(range@),
{
    let media = range.parse::<mime::Mime>().ok()?;
    let q = media.get_param("q").map(|q| q.as_str().to_owned());
    Some((media.type_().as_str().to_owned(), media.subtype().as_str().to_owned(), q))
}

/// A parsed media range, as [`media_range`] gives it.
pub type MediaParts = (Seq<char>, Seq<char>, Option<Seq<char>>);

/// The `q` parameter of a parsed media range, if it is the one for HTML.
pub open spec fn html_weight(media: Option<MediaParts>) -> Option<Option<Seq<char>>> {
    match media {
        Some((kind, subtype, q)) => if kind == "text"@ && subtype == "html"@ {
            Some(q)
        } else {
            None
        },
        None => None,
    }
}

/// The `q` parameter of a media range for HTML, none if the range is another one.
pub open spec fn html_range(range: Seq<char>) -> Option<Option<Seq<char>>> {
    html_weight(media_range(text::trimmed(range)))
}

/// The characters of a parsed media range.
pub open spec fn media_texts(media: Option<(String, String, Option<String>)>) -> Option<
    MediaParts,
> {
    match media {
        Some((kind, subtype, q)) => Some((kind@, subtype@, text::optional_text(q))),
        None => None,
    }
}

/// The `q` parameter of a parsed media range, if the range is the one for HTML.
pub fn weight_for_html(media: Option<(String, String, Option<String>)>) -> (q: Option<
    Option<String>,
>)
    ensures
        match q {
            Some(q) => html_weight(media_texts(media)) == Some(text::optional_text(q)),
            None => html_weight(media_texts(media)) is None,
        },
{
    match media {
        Some((kind, subtype, q)) => {
            if same_text(kind.as_str(), "text") && same_text(subtype.as_str(), "html") {
                Some(q)
            } else {
                None
            }
        },
        None => None,
    }
}

/// The `q` parameters of the ranges for HTML among `ranges`, in order.
pub open spec fn html_ranges_of(ranges: Seq<Seq<char>>) -> Seq<Option<Seq<char>>>
    decreases ranges.len(),
{
    if ranges.len() == 0 {
        Seq::empty()
    } else {
        let rest = html_ranges_of(ranges.drop_last());
        match html_range(ranges.last()) {
            Some(q) => rest.push(q),
            None => rest,
        }
    }
}

/// The ranges for HTML in an `Accept` value, each by the text of its `q`
/// parameter, which is absent where the range has none.
pub fn html_ranges(accept: &str) -> (ranges: Vec<Option<String>>)
    ensures
        ranges@.map_values(|q: Option<String>| text::optional_text(q)) == html_ranges_of(
            text::split(accept@, ','),
        ),
{
    let parts = split_on(accept, ',');
    let ghost pieces = text::split(accept@, ',');
    let mut ranges: Vec<Option<String>> = Vec::new();
    let mut i: usize = 0;
    proof {
        assert(pieces.take(0) =~= Seq::empty());
        assert(ranges@.map_values(|q: Option<String>| text::optional_text(q)) =~= Seq::empty());
    }
    while i < parts.len()
        invariant
            i <= parts.len(),
            pieces == text::split(accept@, ','),
            text::views(parts@) == pieces,
            ranges@.map_values(|q: Option<String>| text::optional_text(q)) == html_ranges_of(
                pieces.take(i as int),
            ),
        decreases parts.len() - i,
    {
        proof {
            assert(text::views(parts@)[i as int] == parts@[i as int]@);
            assert(pieces.take(i + 1).drop_last() =~= pieces.take(i as int));
            assert(pieces.take(i + 1).last() == pieces[i as int]);
        }
        let ghost before = ranges@;
        if let Some(q) = weight_for_html(parse_media_range(trim(parts[i]))) {
            ranges.push(q);
            proof {
                assert(ranges@.map_values(|q: Option<String>| text::optional_text(q))
                    =~= before.map_values(|q: Option<String>| text::optional_text(q)).push(
                    text::optional_text(q),
                ));
            }
        }
        i = i + 1;
    }
    proof {
        assert(text::views(parts@).len() == parts@.len());
        assert(pieces.take(i as int) =~= pieces);
    }
    ranges
}

/// The ranges for HTML that a request accepts or refuses: those of its first
/// `Accept` field, none if the field is missing or no text.
pub fn requested_html_ranges(headers: &HeaderMap) -> (ranges: Vec<Option<String>>)
    ensures
        ranges@.map_values(|q: Option<String>| text::optional_text(q)) == (match http::first_text(
            *headers,
            "accept"@,
        ) {
            Some(accept) => html_ranges_of(text::split(accept, ',')),
            None => Seq::<Option<Seq<char>>>::empty(),
        }),
{
    match http::first_value_text(headers, "accept") {
        Some(accept) => html_ranges(accept.as_str()),
        None => {
            let none: Vec<Option<String>> = Vec::new();
            proof {
                assert(none@.map_values(|q: Option<String>| text::optional_text(q))
                    =~= Seq::empty());
            }
            none
        },
    }
}

/// The weight of a range: absent, or what its `q` parameter denotes. A parameter
/// that is no quality value denotes nothing. Weights are ordered like the quality
/// values they stand for, and 0 is a refusal.
pub type Weight = u32;

/// Whether one of the ranges for HTML is acceptable: its parameter is absent, is
/// no quality value, or is above zero.
pub fn accept_header_includes_html(ranges: &Vec<Option<Option<Weight>>>) -> (accepted: bool)
    ensures
        accepted <==> exists|i: int|
            0 <= i < ranges@.len() && #[trigger] ranges@[i] != Some(Some(0u32)),
{
    let mut i: usize = 0;
    while i < ranges.len()
        invariant
            i <= ranges.len(),
            forall|j: int| 0 <= j < i ==> #[trigger] ranges@[j] == Some(Some(0u32)),
        decreases ranges.len() - i,
    {
        match ranges[i] {
            Some(Some(0)) => {},
            _ => {
                proof {
                    assert(ranges@[i as int] != Some(Some(0u32)));
                }
                return true;
            },
        }
        i = i + 1;
    }
    false
}

// ---------------------------------------------------------------------------
// Redirects
// ---------------------------------------------------------------------------
/// The field by which a client-side navigation is asked for.
pub const REDIRECT_HEADER: &'static str = "serverfnredirect";

/// Redirects the browser from within a server function.
///
/// A form submission, which accepts HTML, is answered with `302 Found`; another
/// client is asked to navigate by [`REDIRECT_HEADER`] and still gets its payload.
/// A path that is no legal header value changes nothing.
pub fn redirect(path: &str, accepts_html: bool, options: &mut ResponseOptions) -> (applied: bool)
    ensures
        applied == http::valid_value(vstd::utf8::encode_utf8(path@)),
        !applied ==> final(options).parts == old(options).parts,
        applied ==> {
            let located = http::header_fields(old(options).parts.headers).insert(
                "location"@,
                seq![vstd::utf8::encode_utf8(path@)],
            );
            if accepts_html {
                &&& final(options).parts.status == Some(http::FOUND)
                &&& http::header_fields(final(options).parts.headers) == located
            } else {
                &&& final(options).parts.status == old(options).parts.status
                &&& http::header_fields(final(options).parts.headers) == located.insert(
                    "serverfnredirect"@,
                    seq![Seq::<u8>::empty()],
                )
            }
        },
{
    match HeaderValue::from_text(path) {
        None => false,
        Some(location) => {
            proof {
                http::lemma_known_names();
            }
            http::insert_field(&mut options.parts.headers, "location", &location);
            if accepts_html {
                options.set_status(http::FOUND);
            } else {
                let nothing: Vec<u8> = Vec::new();
                if let Some(empty) = HeaderValue::from_bytes(nothing.as_slice()) {
                    http::insert_field(&mut options.parts.headers, REDIRECT_HEADER, &empty);
                }
            }
            true
        },
    }
}

// ---------------------------------------------------------------------------
// Laws
// ---------------------------------------------------------------------------
/// What the application sets is there afterwards, its last value last; what it leaves
/// alone is untouched, and nothing else appears.
pub proof fn overrides_come_last(
    own: Map<Seq<char>, Seq<Seq<u8>>>,
    extra: Map<Seq<char>, Seq<Seq<u8>>>,
    name: Seq<char>,
)
    requires
        extra.contains_key(name) ==> extra[name].len() > 0,
    ensures
        ({
            let after = merged(own, extra);
            &&& after.contains_key(name) <==> own.contains_key(name) || extra.contains_key(name)
            &&& extra.contains_key(name) ==> after[name].len() > 0 && after[name].last()
                == extra[name].last()
            &&& own.contains_key(name) && !extra.contains_key(name) ==> after[name] == own[name]
        }),
{
}

/// Merging twice is merging what was merged.
pub proof fn merging_is_associative(
    a: Map<Seq<char>, Seq<Seq<u8>>>,
    b: Map<Seq<char>, Seq<Seq<u8>>>,
    c: Map<Seq<char>, Seq<Seq<u8>>>,
)
    requires
        forall|name: Seq<char>| #[trigger] b.contains_key(name) ==> b[name].len() > 0,
        forall|name: Seq<char>| #[trigger] c.contains_key(name) ==> c[name].len() > 0,
    ensures
        merged(merged(a, b), c) == merged(a, merged(b, c)),
{
    let left = merged(merged(a, b), c);
    let right = merged(a, merged(b, c));
    assert forall|name: Seq<char>| left.contains_key(name) implies left[name] == right[name] by {
        if c.contains_key(name) {
            assert(c[name].len() > 0);
            let own = if a.contains_key(name) {
                a[name]
            } else {
                Seq::<Seq<u8>>::empty()
            };
            if b.contains_key(name) {
                assert(b[name].len() > 0);
                assert((own + b[name]) + c[name] =~= own + (b[name] + c[name]));
                assert(seq![c[name].last()].last() == c[name].last());
            } else {
                assert(Seq::<Seq<u8>>::empty() + c[name] =~= c[name]);
                assert(seq![c[name].last()].last() == c[name].last());
                assert(own + c[name] =~= own + (Seq::<Seq<u8>>::empty() + c[name]));
            }
        } else if b.contains_key(name) {
            assert(b[name].len() > 0);
        }
    }
    assert(left =~= right);
}

/// Cookies, links, hints on variation and challenges of both sides stand side by side:
/// none of them is lost.
pub proof fn cumulative_fields_are_joined(
    own: Map<Seq<char>, Seq<Seq<u8>>>,
    extra: Map<Seq<char>, Seq<Seq<u8>>>,
    name: Seq<char>,
)
    requires
        own.contains_key(name),
        extra.contains_key(name),
        name == "set-cookie"@ || name == "link"@ || name == "vary"@ || name == "www-authenticate"@,
    ensures
        merged(own, extra)[name] == own[name] + extra[name],
{
    lemma_cumulative(name);
}

proof fn lemma_cumulative(name: Seq<char>)
    requires
        name == "set-cookie"@ || name == "link"@ || name == "vary"@ || name == "www-authenticate"@,
    ensures
        merge_rule(name) == HeaderMerge::Append,
        !describes_body(name),
        !identifies_representation(name),
{
    reveal_strlit("set-cookie");
    reveal_strlit("link");
    reveal_strlit("vary");
    reveal_strlit("www-authenticate");
    reveal_strlit("content-length");
    reveal_strlit("content-type");
    reveal_strlit("content-encoding");
    reveal_strlit("content-range");
    reveal_strlit("transfer-encoding");
    reveal_strlit("accept-ranges");
    reveal_strlit("etag");
    reveal_strlit("last-modified");
    reveal_strlit("content-digest");
    reveal_strlit("digest");
    reveal_strlit("content-language");
    reveal_strlit("content-location");
    reveal_strlit("repr-digest");
    reveal_strlit("sec-websocket-version");
    reveal_strlit("location");
    reveal_strlit("expires");
    reveal_strlit("content-disposition");
    reveal_strlit("retry-after");
    reveal_strlit("age");
    reveal_strlit("date");
    reveal_strlit("server");
    reveal_strlit("strict-transport-security");
    reveal_strlit("x-frame-options");
    reveal_strlit("x-content-type-options");
    reveal_strlit("referrer-policy");
    reveal_strlit("cache-control");
    assert(name[0] == 's' || name[0] == 'l' || name[0] == 'v' || name[0] == 'w');
    assert(name.len() == 10 || name.len() == 4 || name.len() == 16);
    assert("etag"@[0] == 'e');
    assert("date"@[0] == 'd');
    assert("content-encoding"@[0] == 'c');
    assert("content-language"@[0] == 'c');
    assert("content-location"@[0] == 'c');
}

/// A field of which there can be only one has the last value of the application in place
/// of what was there.
pub proof fn single_fields_are_replaced(
    own: Map<Seq<char>, Seq<Seq<u8>>>,
    extra: Map<Seq<char>, Seq<Seq<u8>>>,
    name: Seq<char>,
)
    requires
        extra.contains_key(name),
        name == "location"@ || name == "content-type"@ || name == "content-length"@ || name
            == "content-range"@ || name == "etag"@ || name == "last-modified"@ || name
            == "content-location"@ || name == "content-disposition"@ || name == "expires"@ || name
            == "retry-after"@ || name == "age"@ || name == "date"@ || name == "server"@ || name
            == "strict-transport-security"@ || name == "x-frame-options"@ || name
            == "x-content-type-options"@ || name == "referrer-policy"@ || name == "content-digest"@
            || name == "digest"@ || name == "repr-digest"@ || name == "sec-websocket-version"@,
    ensures
        merged(own, extra)[name] == seq![extra[name].last()],
{
    reveal_strlit("content-digest");
    reveal_strlit("digest");
    reveal_strlit("repr-digest");
    reveal_strlit("sec-websocket-version");
    reveal_strlit("location");
    reveal_strlit("expires");
    reveal_strlit("content-disposition");
    reveal_strlit("retry-after");
    reveal_strlit("age");
    reveal_strlit("date");
    reveal_strlit("server");
    reveal_strlit("strict-transport-security");
    reveal_strlit("x-frame-options");
    reveal_strlit("x-content-type-options");
    reveal_strlit("referrer-policy");
    reveal_strlit("content-encoding");
    reveal_strlit("transfer-encoding");
    reveal_strlit("accept-ranges");
    reveal_strlit("content-language");
    reveal_strlit("content-location");
    reveal_strlit("content-type");
    reveal_strlit("content-length");
    reveal_strlit("content-range");
    reveal_strlit("etag");
    reveal_strlit("last-modified");
    assert("content-range"@[0] == 'c' && "accept-ranges"@[0] == 'a' && "last-modified"@[0] == 'l');
    assert("content-location"@[8] == 'l' && "content-encoding"@[8] == 'e');
    assert("content-location"@[9] == 'o' && "content-language"@[9] == 'a');
    assert(name.len() != 13 || name[0] != 'a');
    assert(name.len() != 17);
    assert(name.len() == 16 ==> name == "content-location"@);
    assert("transfer-encoding"@.len() == 17);
    assert("content-encoding"@.len() == 16 && "content-language"@.len() == 16);
    assert("accept-ranges"@.len() == 13);
    assert(name != "content-encoding"@);
    assert(name != "content-language"@);
    assert(!describes_as_list(name));
}

/// A list that describes the response has the values of the application, all of them, in
/// place of what was there.
pub proof fn described_lists_are_replaced(
    own: Map<Seq<char>, Seq<Seq<u8>>>,
    extra: Map<Seq<char>, Seq<Seq<u8>>>,
    name: Seq<char>,
)
    requires
        extra.contains_key(name),
        name == "content-encoding"@ || name == "transfer-encoding"@ || name == "accept-ranges"@
            || name == "content-language"@ || name == "cache-control"@,
    ensures
        merged(own, extra)[name] == extra[name],
{
    if name == "cache-control"@ {
        reveal_strlit("cache-control");
        reveal_strlit("content-length");
        reveal_strlit("content-type");
        reveal_strlit("content-encoding");
        reveal_strlit("content-range");
        reveal_strlit("transfer-encoding");
        reveal_strlit("accept-ranges");
        reveal_strlit("etag");
        reveal_strlit("last-modified");
        reveal_strlit("content-digest");
        reveal_strlit("digest");
        reveal_strlit("content-language");
        reveal_strlit("content-location");
        reveal_strlit("repr-digest");
        reveal_strlit("sec-websocket-version");
        reveal_strlit("location");
        reveal_strlit("expires");
        reveal_strlit("content-disposition");
        reveal_strlit("retry-after");
        reveal_strlit("age");
        reveal_strlit("date");
        reveal_strlit("server");
        reveal_strlit("strict-transport-security");
        reveal_strlit("x-frame-options");
        reveal_strlit("x-content-type-options");
        reveal_strlit("referrer-policy");
        assert(name.len() == 13 && name[0] == 'c' && name[1] == 'a');
        assert("content-range"@[1] == 'o');
        assert("accept-ranges"@[0] == 'a');
        assert("last-modified"@[0] == 'l');
    }
}

/// Cookies, links, hints on variation and challenges join every response, whatever of it
/// describes itself.
pub proof fn cumulative_fields_always_join(
    extra: Map<Seq<char>, Seq<Seq<u8>>>,
    own: OwnFields,
    name: Seq<char>,
)
    requires
        extra.contains_key(name),
        name == "set-cookie"@ || name == "link"@ || name == "vary"@ || name == "www-authenticate"@,
    ensures
        kept_fields(extra, own).contains_key(name),
        kept_fields(extra, own)[name] == extra[name],
{
    lemma_cumulative(name);
    reveal_strlit("set-cookie");
    reveal_strlit("link");
    reveal_strlit("vary");
    reveal_strlit("www-authenticate");
    reveal_strlit("content-language");
    assert("www-authenticate"@[0] == 'w' && "content-language"@[0] == 'c');
}

/// The fields that describe the bytes of a response never join one that describes its
/// own.
pub proof fn own_descriptions_are_kept(
    extra: Map<Seq<char>, Seq<Seq<u8>>>,
    own: OwnFields,
    name: Seq<char>,
)
    requires
        name == "content-length"@ || name == "content-type"@ || name == "content-encoding"@ || name
            == "content-range"@ || name == "transfer-encoding"@ || name == "accept-ranges"@ || name
            == "etag"@ || name == "last-modified"@ || name == "content-digest"@ || name
            == "digest"@,
    ensures
        !kept_fields(extra, own).contains_key(name),
{
}

/// The ranges for HTML of two lists one behind the other are those of the first and then
/// those of the second; a range counts exactly if it reads as `text/html`.
pub proof fn html_ranges_are_found(a: Seq<Seq<char>>, b: Seq<Seq<char>>, range: Seq<char>)
    ensures
        html_ranges_of(a + b) == html_ranges_of(a) + html_ranges_of(b),
        html_ranges_of(seq![range]) == (match media_range(text::trimmed(range)) {
            Some((kind, subtype, q)) => if kind == seq!['t', 'e', 'x', 't'] && subtype == seq![
                'h', 't', 'm', 'l',
            ] {
                seq![q]
            } else {
                Seq::empty()
            },
            None => Seq::empty(),
        }),
    decreases b.len(),
{
    reveal_strlit("text");
    reveal_strlit("html");
    assert("text"@ =~= seq!['t', 'e', 'x', 't']);
    assert("html"@ =~= seq!['h', 't', 'm', 'l']);
    reveal_with_fuel(html_ranges_of, 2);
    assert(seq![range].drop_last() =~= Seq::<Seq<char>>::empty());
    if let Some(q) = html_range(range) {
        assert(Seq::<Option<Seq<char>>>::empty().push(q) =~= seq![q]);
    }
    if b.len() == 0 {
        assert(a + b =~= a);
        assert(html_ranges_of(a) + html_ranges_of(b) =~= html_ranges_of(a));
    } else {
        assert((a + b).drop_last() =~= a + b.drop_last());
        assert((a + b).last() == b.last());
        html_ranges_are_found(a, b.drop_last(), range);
        assert(html_ranges_of(a + b) =~= html_ranges_of(a) + html_ranges_of(b));
    }
}

/// A redirect sets the location to the path. A browser gets `302 Found`; another client
/// keeps its status and is told to navigate. A path that is no legal value changes
/// nothing.
pub proof fn redirects_lead_to_their_path(
    path: &str,
    accepts_html: bool,
    options: &mut ResponseOptions,
    applied: bool,
)
    requires
        call_ensures(redirect, (path, accepts_html, options), applied),
    ensures
        ({
            let before = http::header_fields(old(options).parts.headers);
            let after = http::header_fields(final(options).parts.headers);
            &&& applied <==> http::valid_value(vstd::utf8::encode_utf8(path@))
            &&& applied ==> after.contains_key("location"@) && after["location"@] == seq![
                vstd::utf8::encode_utf8(path@),
            ]
            &&& applied && accepts_html ==> final(options).parts.status == Some(302u16)
            &&& applied && !accepts_html ==> final(options).parts.status
                == old(options).parts.status && after.contains_key("serverfnredirect"@)
            &&& applied && accepts_html ==> after.contains_key("serverfnredirect"@)
                == before.contains_key("serverfnredirect"@)
            &&& !applied ==> after == before && final(options).parts.status
                == old(options).parts.status
            &&& forall|name: Seq<char>|
                name != "location"@ && name != "serverfnredirect"@ ==> #[trigger] after.contains_key(
                    name,
                ) == before.contains_key(name) && (before.contains_key(name) ==> after[name]
                    == before[name])
        }),
{
    reveal_strlit("location");
    reveal_strlit("serverfnredirect");
    assert("location"@.len() != "serverfnredirect"@.len());
}

/// Overrides are applied once: the status that they set is that of the response, and
/// nothing of them is left.
pub proof fn overrides_are_applied_once(
    head: &mut NtexResponse,
    later: &mut NtexResponse,
    options: &mut ResponseOptions,
    rest: &mut ResponseOptions,
)
    requires
        call_ensures(NtexResponse::extend_response, (head, options), ()),
        *old(later) == *final(head),
        *old(rest) == *final(options),
        call_ensures(NtexResponse::extend_response, (later, rest), ()),
    ensures
        old(options).parts.status matches Some(status) ==> final(head).status == status,
        old(options).parts.status is None ==> final(head).status == old(head).status,
        final(later).status == final(head).status,
        http::header_fields(final(later).headers) == http::header_fields(final(head).headers),
{
    let fields = http::header_fields(final(head).headers);
    let none = http::header_fields(final(options).parts.headers);
    assert(merged(fields, none) =~= fields);
}

/// An error of the adapter keeps its status, whatever the overrides say.
pub proof fn failures_keep_their_status(
    head: &mut NtexResponse,
    options: &mut ResponseOptions,
)
    requires
        call_ensures(NtexResponse::extend_failed_response, (head, options), ()),
    ensures
        final(head).status == old(head).status,
        http::header_fields(old(head).headers).contains_key("content-type"@) ==> http::header_fields(
            final(head).headers,
        )["content-type"@] == http::header_fields(old(head).headers)["content-type"@],
{
    failures_describe_themselves(
        http::header_fields(old(head).headers),
        http::header_fields(old(options).parts.headers),
        "content-type"@,
    );
}

/// A default content type never replaces one that is there.
pub proof fn defaults_replace_nothing(head: &mut NtexResponse, content_type: &str, name: Seq<char>)
    requires
        call_ensures(NtexResponse::set_default_content_type, (head, content_type), ()),
        http::header_fields(old(head).headers).contains_key(name),
    ensures
        final(head).status == old(head).status,
        http::header_fields(final(head).headers).contains_key(name),
        http::header_fields(final(head).headers)[name] == http::header_fields(
            old(head).headers,
        )[name],
{
    http::lemma_known_names();
    reveal_strlit("content-type");
    http::lemma_plain_name("content-type"@);
}

/// HTML is accepted exactly if one of the ranges for it is not refused by the weight zero;
/// a request without such a range does not accept it.
pub proof fn html_is_accepted_unless_refused(
    ranges: &Vec<Option<Option<Weight>>>,
    accepted: bool,
    i: int,
)
    requires
        call_ensures(accept_header_includes_html, (ranges,), accepted),
    ensures
        ranges@.len() == 0 ==> !accepted,
        0 <= i < ranges@.len() && ranges@[i] is None ==> accepted,
        0 <= i < ranges@.len() && ranges@[i] == Some(None::<Weight>) ==> accepted,
        0 <= i < ranges@.len() && (ranges@[i] matches Some(Some(weight)) && weight > 0) ==> accepted,
        (forall|j: int| 0 <= j < ranges@.len() ==> #[trigger] ranges@[j] == Some(Some(0u32)))
            ==> !accepted,
{
}

/// What identifies a representation does not join an error, which is another one; it joins
/// a page that is served, unless that is the language and the client has it.
pub proof fn representations_are_identified_where_served(
    extra: Map<Seq<char>, Seq<Seq<u8>>>,
    name: Seq<char>,
)
    requires
        name == "content-language"@ || name == "content-location"@ || name == "repr-digest"@ || name
            == "sec-websocket-version"@,
        extra.contains_key(name),
    ensures
        !kept_fields(extra, OwnFields::Failed).contains_key(name),
        kept_fields(extra, OwnFields::Served { omit_language: false }).contains_key(name),
        kept_fields(extra, OwnFields::Served { omit_language: true }).contains_key(name) <==> name
            != "content-language"@,
{
    reveal_strlit("content-language");
    reveal_strlit("content-location");
    reveal_strlit("repr-digest");
    reveal_strlit("sec-websocket-version");
    reveal_strlit("content-length");
    reveal_strlit("content-type");
    reveal_strlit("content-encoding");
    reveal_strlit("content-range");
    reveal_strlit("transfer-encoding");
    reveal_strlit("accept-ranges");
    reveal_strlit("etag");
    reveal_strlit("last-modified");
    reveal_strlit("content-digest");
    reveal_strlit("digest");
    assert("content-language"@.len() == 16 && "content-location"@.len() == 16);
    assert("repr-digest"@.len() == 11 && "sec-websocket-version"@.len() == 21);
    assert("content-length"@.len() == 14 && "content-type"@.len() == 12);
    assert("content-range"@.len() == 13 && "transfer-encoding"@.len() == 17);
    assert("accept-ranges"@.len() == 13 && "etag"@.len() == 4 && "last-modified"@.len() == 13);
    assert("content-digest"@.len() == 14 && "digest"@.len() == 6);
    assert("content-encoding"@.len() == 16 && "content-encoding"@[8] == 'e');
    assert("content-language"@[8] == 'l' && "content-location"@[8] == 'l');
    assert(!describes_body(name));
}

/// A header that is inserted is the only value of its name; one that is appended comes
/// behind what is there. Neither touches another header or the status.
pub proof fn headers_are_inserted_and_appended(
    parts: &mut ResponseParts,
    later: &mut ResponseParts,
    key: HeaderName,
    first: HeaderValue,
    second: HeaderValue,
    name: Seq<char>,
)
    requires
        call_ensures(ResponseParts::insert_header, (parts, key, first), ()),
        *old(later) == *final(parts),
        call_ensures(ResponseParts::append_header, (later, key, second), ()),
    ensures
        http::header_fields(final(parts).headers)[key@] == seq![first@],
        http::header_fields(final(later).headers)[key@] == seq![first@, second@],
        final(later).status == old(parts).status,
        name != key@ ==> http::header_fields(final(later).headers).contains_key(name)
            == http::header_fields(old(parts).headers).contains_key(name),
        name != key@ && http::header_fields(old(parts).headers).contains_key(name)
            ==> http::header_fields(final(later).headers)[name] == http::header_fields(
            old(parts).headers,
        )[name],
{
    assert(seq![first@].push(second@) =~= seq![first@, second@]);
}

/// Overrides that are taken out are those that were there, and none are left behind.
pub proof fn overrides_are_taken_once(
    options: &mut ResponseOptions,
    later: &mut ResponseOptions,
    parts: ResponseParts,
    rest: ResponseParts,
)
    requires
        call_ensures(ResponseOptions::take, (options,), parts),
        *old(later) == *final(options),
        call_ensures(ResponseOptions::take, (later,), rest),
    ensures
        parts == old(options).parts,
        rest.status is None,
        http::header_fields(rest.headers).is_empty(),
{
}

} // verus!
