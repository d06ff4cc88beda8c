//! Preconditions and ranges of a request for a file (RFC 9110, sections 13 and 14).
//!
//! A file response is built in steps. [`file_response`] decides from the request
//! alone whether the file is served as it is, under preconditions, or not at all.
//! Where a range is asked for, the response to the preconditions alone is looked at
//! first, and [`plan_range`] decides whether the range applies.

use crate::http::{
    self, contains_header, first_value, header_values, HeaderName, HeaderValue, StatusCode,
};
use crate::response::append_all;
use crate::text::{self, copy_bytes, eq_ignore_ascii_case, same_bytes, same_text, split_once};
use ntex::http::HeaderMap;
use ntex_files::header::Header;
use vstd::prelude::*;

verus! {

type Fields = Map<Seq<char>, Seq<Seq<u8>>>;

/// The methods that file responses tell apart.
#[derive(Clone, Copy, Debug, PartialEq, Eq, Structural)]
pub enum FileMethod {
    Get,
    Head,
    Other,
}

/// The part of a request that a file response depends on.
pub struct FileRequest<'a> {
    pub method: FileMethod,
    pub headers: &'a HeaderMap,
}

/// How a file is served.
pub enum FilePlan {
    /// An empty response of this status.
    Bare(StatusCode),
    /// The response to the request as it is. Its status goes through
    /// [`plain_status`].
    Plain,
    /// The response to a request with these fields in place of its own. Where a
    /// range is given, [`plan_range`] decides before that.
    Projected { headers: HeaderMap, range: Option<HeaderValue> },
}

/// The first second that cannot be written as an HTTP date.
pub const DATE_LIMIT: u64 = 253_402_300_800;

/// Whether the modification time of a file cannot be written as an HTTP date, so
/// that the file is served without validators. `modified` is absent where it could
/// not be read, and holds the seconds since 1970, absent before that.
pub fn unsupported_modified(modified: Option<Option<u64>>) -> (unsupported: bool)
    ensures
        unsupported == (match modified {
            Some(Some(seconds)) => seconds >= DATE_LIMIT,
            Some(None) => true,
            None => false,
        }),
{
    match modified {
        Some(Some(seconds)) => seconds >= DATE_LIMIT,
        Some(None) => true,
        None => false,
    }
}

// ---------------------------------------------------------------------------
// Preconditions
// ---------------------------------------------------------------------------
pub open spec fn named(fields: Fields, name: Seq<char>) -> bool {
    http::names_field(name) && fields.contains_key(text::lowercase(name))
}

/// Whether a request asks for a part, or for a response only under a condition on
/// the current state of the file.
pub open spec fn selective(fields: Fields) -> bool {
    ||| named(fields, "range"@)
    ||| named(fields, "if-none-match"@)
    ||| named(fields, "if-match"@)
    ||| named(fields, "if-modified-since"@)
    ||| named(fields, "if-unmodified-since"@)
}

/// Whether a request has any conditional field.
pub open spec fn conditional(fields: Fields) -> bool {
    selective(fields) || named(fields, "if-range"@)
}

/// The members of a list field in one line. Lines before the first that is not
/// empty add nothing.
pub open spec fn combined(lines: Seq<Seq<u8>>) -> Seq<u8>
    decreases lines.len(),
{
    if lines.len() == 0 {
        Seq::empty()
    } else {
        let rest = combined(lines.drop_last());
        if rest.len() == 0 {
            lines.last()
        } else {
            rest + seq![0x2cu8, 0x20u8] + lines.last()
        }
    }
}

/// The fields with those of `source` under `name` carried over.
pub open spec fn carried(into: Fields, source: Fields, name: Seq<char>, wanted: bool) -> Fields {
    if wanted && named(source, name) {
        into.insert(name, http::field_values(source, name))
    } else {
        into
    }
}

/// The fields with the combined line of `source` under `name`, if there is one.
pub open spec fn carried_list(into: Fields, source: Fields, name: Seq<char>, wanted: bool) -> Fields {
    let line = combined(http::field_values(source, name));
    if wanted && line.len() > 0 {
        into.insert(name, seq![line])
    } else {
        into
    }
}

/// The preconditions that count: none unless the response would be a success;
/// `If-Modified-Since` only for GET and HEAD; `If-Unmodified-Since` only without
/// `If-Match`; entity tags of all lines together.
pub open spec fn projected(fields: Fields, method: FileMethod, base: StatusCode) -> Fields {
    let wanted = http::success(base);
    let reading = method != FileMethod::Other;
    let since = carried(Map::empty(), fields, "if-modified-since"@, wanted && reading);
    let until = carried(
        since,
        fields,
        "if-unmodified-since"@,
        wanted && !named(fields, "if-match"@),
    );
    carried_list(
        carried_list(until, fields, "if-match"@, wanted),
        fields,
        "if-none-match"@,
        wanted,
    )
}

/// Whether a range is one of bytes. A value that names no unit, or cannot be read,
/// is left to the range parser.
pub open spec fn byte_unit(range: Seq<u8>) -> bool {
    match http::value_text(range) {
        Some(line) => match text::split_once_at(line, '=') {
            Some((unit, _)) => text::same_ignoring_case(unit, "bytes"@),
            None => true,
        },
        None => true,
    }
}

/// The range that a request asks for. Only a GET that would be answered `200 OK`
/// has one.
pub open spec fn requested_range(
    fields: Fields,
    method: FileMethod,
    base: StatusCode,
) -> Option<Seq<u8>> {
    if named(fields, "range"@) && method == FileMethod::Get && base == http::OK && byte_unit(
        http::field_values(fields, "range"@)[0],
    ) {
        Some(http::field_values(fields, "range"@)[0])
    } else {
        None
    }
}

proof fn lemma_names()
    ensures
        http::known_name("range"@),
        http::known_name("if-range"@),
        http::known_name("if-match"@),
        http::known_name("if-none-match"@),
        http::known_name("if-modified-since"@),
        http::known_name("if-unmodified-since"@),
        "if-modified-since"@ != "if-unmodified-since"@,
        "if-match"@ != "if-modified-since"@,
        "if-match"@ != "if-unmodified-since"@,
        "if-match"@ != "if-none-match"@,
        "if-none-match"@ != "if-modified-since"@,
        "if-none-match"@ != "if-unmodified-since"@,
{
    http::lemma_known_names();
    reveal_strlit("if-match");
    reveal_strlit("if-none-match");
    reveal_strlit("if-modified-since");
    reveal_strlit("if-unmodified-since");
    assert("if-modified-since"@.len() == 17);
    assert("if-unmodified-since"@.len() == 19);
    assert("if-match"@.len() == 8);
    assert("if-none-match"@.len() == 13);
}

/// Carries a field over.
fn carry(into: &mut HeaderMap, source: &HeaderMap, name: &str)
    requires
        http::known_name(name@),
        !http::header_fields(*old(into)).contains_key(name@),
    ensures
        http::header_fields(*final(into)) == carried(
            http::header_fields(*old(into)),
            http::header_fields(*source),
            name@,
            true,
        ),
{
    if let Some(name) = HeaderName::from_lowercase(name) {
        let values = http::named_values(source, &name);
        if values.len() > 0 {
            append_all(into, &name, &values);
            proof {
                assert(Seq::<Seq<u8>>::empty() + http::value_bytes(values@) =~= http::value_bytes(
                    values@,
                ));
            }
        }
    }
}

/// One line with the members of all lines of a field, if they hold any.
fn combine(source: &HeaderMap, name: &str) -> (line: Option<HeaderValue>)
    ensures
        match line {
            Some(value) => value@ == combined(http::values_of(*source, name@)) && value@.len() > 0,
            None => combined(http::values_of(*source, name@)).len() == 0,
        },
{
    let fields = header_values(source, name);
    let ghost lines = http::values_of(*source, name@);
    let mut line: Vec<u8> = Vec::new();
    let mut i: usize = 0;
    proof {
        assert(http::value_bytes(fields@).len() == fields@.len());
        assert(lines.take(0) =~= Seq::empty());
    }
    while i < fields.len()
        invariant
            i <= fields.len(),
            http::value_bytes(fields@) == lines,
            lines.len() == fields@.len(),
            line@ == combined(lines.take(i as int)),
            http::valid_value(line@),
        decreases fields.len() - i,
    {
        proof {
            assert(http::value_bytes(fields@)[i as int] == fields@[i as int]@);
            assert(lines.take(i + 1).drop_last() =~= lines.take(i as int));
            assert(lines.take(i + 1).last() == fields@[i as int]@);
        }
        let ghost before = line@;
        if line.len() > 0 {
            line.push(0x2c);
            line.push(0x20);
        }
        let mut member = copy_bytes(fields[i].as_bytes());
        let ghost added = member@;
        line.append(&mut member);
        proof {
            if before.len() > 0 {
                assert(line@ =~= before + seq![0x2cu8, 0x20u8] + added);
            } else {
                assert(line@ =~= added);
            }
        }
        i = i + 1;
    }
    proof {
        assert(lines.take(i as int) =~= lines);
    }
    if line.len() == 0 {
        return None;
    }
    HeaderValue::from_bytes(line.as_slice())
}

fn carry_list(into: &mut HeaderMap, source: &HeaderMap, name: &str)
    requires
        http::valid_name(name@),
    ensures
        http::header_fields(*final(into)) == carried_list(
            http::header_fields(*old(into)),
            http::header_fields(*source),
            name@,
            true,
        ),
{
    if let Some(line) = combine(source, name) {
        http::insert_field(into, name, &line);
    }
}

fn has_byte_unit(range: &HeaderValue) -> (b: bool)
    ensures
        b == byte_unit(range@),
{
    match range.to_text() {
        Some(line) => match split_once(line.as_str(), '=') {
            Some((unit, _)) => eq_ignore_ascii_case(unit, "bytes"),
            None => true,
        },
        None => true,
    }
}

pub open spec fn optional_bytes(value: Option<HeaderValue>) -> Option<Seq<u8>> {
    match value {
        Some(value) => Some(value@),
        None => None,
    }
}

/// Decides from the request how a file is served under a base status.
pub fn file_response(request: &FileRequest<'_>, base: StatusCode) -> (plan: FilePlan)
    ensures
        match plan {
            FilePlan::Bare(status) => {
                &&& http::redirection(base) && selective(http::header_fields(*request.headers))
                &&& status == base
            },
            FilePlan::Plain => !conditional(http::header_fields(*request.headers)),
            FilePlan::Projected { headers, range } => {
                &&& conditional(http::header_fields(*request.headers))
                &&& !(http::redirection(base) && selective(http::header_fields(*request.headers)))
                &&& http::header_fields(headers) == projected(
                    http::header_fields(*request.headers),
                    request.method,
                    base,
                )
                &&& optional_bytes(range) == requested_range(
                    http::header_fields(*request.headers),
                    request.method,
                    base,
                )
            },
        },
{
    let source = request.headers;
    let ghost fields = http::header_fields(*source);
    proof {
        lemma_names();
    }
    let ranged = contains_header(source, "range");
    let chosen = ranged || contains_header(source, "if-none-match") || contains_header(
        source,
        "if-match",
    ) || contains_header(source, "if-modified-since") || contains_header(
        source,
        "if-unmodified-since",
    );
    if http::is_redirection(base) && chosen {
        return FilePlan::Bare(base);
    }
    if !chosen && !contains_header(source, "if-range") {
        return FilePlan::Plain;
    }
    let mut headers = http::empty_headers();
    proof {
        assert(http::header_fields(headers) =~= Map::empty());
    }
    if http::is_success(base) {
        if request.method != FileMethod::Other {
            carry(&mut headers, source, "if-modified-since");
        }
        if !contains_header(source, "if-match") {
            carry(&mut headers, source, "if-unmodified-since");
        }
        carry_list(&mut headers, source, "if-match");
        carry_list(&mut headers, source, "if-none-match");
    }
    let mut range: Option<HeaderValue> = None;
    if request.method == FileMethod::Get && base == http::OK {
        if let Some(value) = first_value(source, "range") {
            if has_byte_unit(&value) {
                range = Some(value);
            }
        }
    }
    FilePlan::Projected { headers, range }
}

// ---------------------------------------------------------------------------
// Ranges
// ---------------------------------------------------------------------------
/// An HTTP date as `ntex_files` reads it, in the form in which it is written.
pub uninterp spec fn http_date(date: Seq<char>) -> Option<Seq<char>>;

/// The date of a `Last-Modified` value as `ntex_files` reads it, in the form in which
/// it is written.
pub uninterp spec fn modified_date(value: Seq<u8>) -> Option<Seq<char>>;

/// The ranges of a `Range` value for a file of a size, each by its start and its
/// length, as `ntex_files` reads them.
pub uninterp spec fn parsed_ranges(value: Seq<char>, size: u64) -> Option<Seq<(u64, u64)>>;

/// `ntex_files::header::HttpDate` from a text: a date that depends on the text alone.
/// It is given as it is written, which tells all its parts, the day of the week among
/// them.
#[verifier::external_body]
fn parse_http_date(date: &str) -> (parsed: Option<String>)
    ensures
        text::optional_text(parsed) == http_date(date@),
{
    date.parse::<ntex_files::header::HttpDate>().ok().map(|date| date.to_string())
}

/// `ntex_files::header::LastModified::parse_header` of one line: a date that depends
/// on the bytes of the line alone, given as it is written.
#[verifier::external_body]
fn parse_modified_date(value: &[u8]) -> (parsed: Option<String>)
    ensures
        text::optional_text(parsed) == modified_date(value@),
{
    let raw = ntex_files::header::Raw::from(value);
    let modified = ntex_files::header::LastModified::parse_header(&raw).ok()?;
    Some(modified.0.to_string())
}

/// `ntex_files::HttpRange::parse`: a list of ranges that depends on the text and
/// the size alone.
#[verifier::external_body]
fn parse_ranges(value: &str, size: u64) -> (ranges: Option<Vec<(u64, u64)>>)
    ensures
        match ranges {
            Some(list) => parsed_ranges(value@, size) == Some(list@),
            None => parsed_ranges(value@, size) is None,
        },
{
    let ranges = ntex_files::HttpRange::parse(value, size).ok()?;
    Some(ranges.into_iter().map(|range| (range.start, range.length)).collect())
}

/// Whether a condition is an entity tag, strong or weak, and no date.
pub open spec fn is_entity_tag(condition: Seq<char>) -> bool {
    (condition.len() > 0 && condition[0] == '"') || is_weak(condition)
}

pub open spec fn is_weak(condition: Seq<char>) -> bool {
    condition.len() >= 2 && condition[0] == 'W' && condition[1] == '/'
}

/// Whether an `If-Range` lets the range apply. An entity tag must be strong and the
/// current one; a date must be the date of the last change in all its parts; anything
/// else fails. `since` is the date that the condition denotes, `changed` the date of
/// the last change.
pub open spec fn condition_holds(
    condition: Seq<u8>,
    etag: Option<Seq<u8>>,
    since: Option<Seq<char>>,
    changed: Option<Seq<char>>,
) -> bool {
    match http::value_text(condition) {
        None => false,
        Some(line) => if is_entity_tag(line) {
            !is_weak(line) && etag == Some(condition)
        } else {
            since is Some && since == changed
        },
    }
}

/// The date that a condition denotes.
pub open spec fn condition_date(condition: Seq<u8>) -> Option<Seq<char>> {
    match http::value_text(condition) {
        Some(line) => http_date(line),
        None => None,
    }
}

/// The date of the last change.
pub open spec fn change_date(modified: Option<Seq<u8>>) -> Option<Seq<char>> {
    match modified {
        Some(value) => modified_date(value),
        None => None,
    }
}

/// Whether an `If-Range`, or its absence, lets the range apply.
pub open spec fn if_range_holds(
    condition: Option<Seq<u8>>,
    etag: Option<Seq<u8>>,
    modified: Option<Seq<u8>>,
) -> bool {
    match condition {
        None => true,
        Some(value) => condition_holds(
            value,
            etag,
            condition_date(value),
            change_date(modified),
        ),
    }
}

/// The first value of a field.
pub open spec fn first_of(fields: Fields, name: Seq<char>) -> Option<Seq<u8>> {
    if named(fields, name) {
        Some(http::field_values(fields, name)[0])
    } else {
        None
    }
}

/// Whether an `If-Range` lets the range apply, given the date that it denotes and
/// the date of the last change.
pub fn if_range_matches(
    condition: &HeaderValue,
    etag: &Option<HeaderValue>,
    since: &Option<String>,
    changed: &Option<String>,
) -> (holds: bool)
    ensures
        holds == condition_holds(
            condition@,
            optional_bytes(*etag),
            text::optional_text(*since),
            text::optional_text(*changed),
        ),
{
    let line = match condition.to_text() {
        None => {
            return false;
        },
        Some(line) => line,
    };
    let chars = text::chars_of(line.as_str());
    if chars.len() >= 2 && chars[0] == 'W' && chars[1] == '/' {
        return false;
    }
    if chars.len() > 0 && chars[0] == '"' {
        return match etag {
            Some(current) => same_bytes(current.as_bytes(), condition.as_bytes()),
            None => false,
        };
    }
    match (since, changed) {
        (Some(since), Some(changed)) => same_text(since.as_str(), changed.as_str()),
        _ => false,
    }
}

fn range_applies(request: &HeaderMap, current: &HeaderMap) -> (applies: bool)
    ensures
        applies == if_range_holds(
            first_of(http::header_fields(*request), "if-range"@),
            first_of(http::header_fields(*current), "etag"@),
            first_of(http::header_fields(*current), "last-modified"@),
        ),
{
    let condition = match first_value(request, "if-range") {
        None => {
            return true;
        },
        Some(condition) => condition,
    };
    let etag = first_value(current, "etag");
    let since = match condition.to_text() {
        Some(line) => parse_http_date(line.as_str()),
        None => None,
    };
    let changed = match first_value(current, "last-modified") {
        Some(value) => parse_modified_date(value.as_bytes()),
        None => None,
    };
    if_range_matches(&condition, &etag, &since, &changed)
}

/// The text of a range with its unit in the usual spelling.
pub open spec fn normalized(line: Seq<char>) -> Seq<char> {
    match text::split_once_at(line, '=') {
        Some((_, ranges)) => "bytes="@ + ranges,
        None => line,
    }
}

/// The range that is served: the first of the list, if it lies within the file.
pub open spec fn selected_range(ranges: Option<Seq<(u64, u64)>>, size: u64) -> Option<(u64, u64)> {
    match ranges {
        Some(list) => if size > 0 && list.len() > 0 && list[0].1 > 0 && list[0].0 < size
            && list[0].1 <= size - list[0].0 {
            Some(list[0])
        } else {
            None
        },
        None => None,
    }
}

/// `bytes=` with the first and the last byte of a range.
pub open spec fn range_text(range: (u64, u64)) -> Seq<char> {
    "bytes="@ + text::decimal(range.0 as nat) + "-"@ + text::decimal(
        (range.0 + range.1 - 1) as nat,
    )
}

/// What the response to the preconditions alone looks like.
pub struct Preview<'a> {
    pub status: StatusCode,
    pub headers: &'a HeaderMap,
}

/// Whether a range applies.
pub enum RangePlan {
    /// A precondition decided. Its response is the answer.
    Precondition,
    /// The range does not apply. The whole file is served, and the status goes
    /// through [`whole_status`].
    Whole,
    /// The size of the file could not be read: 500.
    Unreadable,
    /// The range is no text: 400.
    Malformed,
    /// The range is not in the file: 416, with this `Content-Range`.
    Unsatisfiable(String),
    /// A part is served: the response to the projected fields, to which this plan
    /// has added the range. Its status goes through [`partial_status`].
    Partial,
}

impl RangePlan {
    /// The status of a request that this plan refuses.
    pub open spec fn refusal(self) -> Option<StatusCode> {
        match self {
            RangePlan::Unreadable => Some(http::INTERNAL_SERVER_ERROR),
            RangePlan::Malformed => Some(http::BAD_REQUEST),
            RangePlan::Unsatisfiable(_) => Some(http::RANGE_NOT_SATISFIABLE),
            _ => None,
        }
    }

    /// The status of the empty response to a request that this plan refuses; none if
    /// the file answers.
    pub fn status(&self) -> (status: Option<StatusCode>)
        ensures
            status == self.refusal(),
    {
        match self {
            RangePlan::Unreadable => Some(http::INTERNAL_SERVER_ERROR),
            RangePlan::Malformed => Some(http::BAD_REQUEST),
            RangePlan::Unsatisfiable(_) => Some(http::RANGE_NOT_SATISFIABLE),
            _ => None,
        }
    }
}

/// What becomes of a range, by the status of the preview, whether `If-Range` holds,
/// the value of the range, and the size of the file. Where a part is served, it is
/// given by its start and its length.
pub enum RangeOutcome {
    Precondition,
    Whole,
    Unreadable,
    Malformed,
    Unsatisfiable(u64),
    Partial(u64, u64),
}

impl RangeOutcome {
    /// The status of a request that is refused for its range.
    pub open spec fn refusal(self) -> Option<StatusCode> {
        match self {
            RangeOutcome::Unreadable => Some(http::INTERNAL_SERVER_ERROR),
            RangeOutcome::Malformed => Some(http::BAD_REQUEST),
            RangeOutcome::Unsatisfiable(_) => Some(http::RANGE_NOT_SATISFIABLE),
            _ => None,
        }
    }
}

pub open spec fn range_outcome(
    status: StatusCode,
    if_range: bool,
    range: Seq<u8>,
    size: Option<u64>,
) -> RangeOutcome {
    if status == http::NOT_MODIFIED || status == http::PRECONDITION_FAILED {
        RangeOutcome::Precondition
    } else if !if_range {
        RangeOutcome::Whole
    } else {
        match (size, http::value_text(range)) {
            (None, _) => RangeOutcome::Unreadable,
            (Some(_), None) => RangeOutcome::Malformed,
            (Some(size), Some(line)) => match selected_range(
                parsed_ranges(normalized(line), size),
                size,
            ) {
                Some((start, length)) => RangeOutcome::Partial(start, length),
                None => RangeOutcome::Unsatisfiable(size),
            },
        }
    }
}

fn normalize(line: &str) -> (text: String)
    ensures
        text@ == normalized(line@),
{
    match split_once(line, '=') {
        Some((_, ranges)) => {
            let mut text = text::copy_text("bytes=");
            text.append(ranges);
            text
        },
        None => text::copy_text(line),
    }
}

/// Picks the range that is served out of a parsed list.
pub fn select_range(ranges: &Option<Vec<(u64, u64)>>, size: u64) -> (selected: Option<(u64, u64)>)
    ensures
        selected == selected_range(
            match *ranges {
                Some(list) => Some(list@),
                None => None,
            },
            size,
        ),
{
    match ranges {
        None => None,
        Some(list) => {
            if size > 0 && list.len() > 0 {
                let (start, length) = list[0];
                if length > 0 && start < size && length <= size - start {
                    return Some((start, length));
                }
            }
            None
        },
    }
}

fn format_range(start: u64, length: u64) -> (text: String)
    requires
        0 < length,
        start + length <= u64::MAX,
    ensures
        text@ == range_text((start, length)),
{
    let mut text = text::concat3(
        "bytes=",
        text::format_decimal(start).as_str(),
        "-",
    );
    text.append(text::format_decimal(start + (length - 1)).as_str());
    proof {
        assert(text@ =~= range_text((start, length)));
    }
    text
}

/// Decides whether the range of a request applies, after the response to its
/// preconditions alone. `fields` are the projected fields of the request, `size` the
/// length of the file where it could be read.
pub fn plan_range(
    request: &FileRequest<'_>,
    fields: &mut HeaderMap,
    range: &HeaderValue,
    preview: &Preview<'_>,
    size: Option<u64>,
) -> (plan: RangePlan)
    ensures
        ({
            let own = http::header_fields(*request.headers);
            let current = http::header_fields(*preview.headers);
            let if_range = if_range_holds(
                first_of(own, "if-range"@),
                first_of(current, "etag"@),
                first_of(current, "last-modified"@),
            );
            let before = http::header_fields(*old(fields));
            let after = http::header_fields(*final(fields));
            let outcome = range_outcome(preview.status, if_range, range@, size);
            &&& plan.refusal() == outcome.refusal()
            &&& match outcome {
                RangeOutcome::Precondition => plan is Precondition && after == before,
                RangeOutcome::Whole => plan is Whole && after == before,
                RangeOutcome::Unreadable => plan is Unreadable && after == before,
                RangeOutcome::Malformed => plan is Malformed && after == before,
                RangeOutcome::Unsatisfiable(size) => plan matches RangePlan::Unsatisfiable(
                    content_range,
                ) && content_range@ == "bytes */"@ + text::decimal(size as nat) && after == before,
                RangeOutcome::Partial(start, length) => plan is Partial && after == before.insert(
                    "range"@,
                    seq![vstd::utf8::encode_utf8(range_text((start, length)))],
                ),
            }
        }),
{
    if preview.status == http::NOT_MODIFIED || preview.status == http::PRECONDITION_FAILED {
        return RangePlan::Precondition;
    }
    if !range_applies(request.headers, preview.headers) {
        return RangePlan::Whole;
    }
    let size = match size {
        None => {
            return RangePlan::Unreadable;
        },
        Some(size) => size,
    };
    let line = match range.to_text() {
        None => {
            return RangePlan::Malformed;
        },
        Some(line) => line,
    };
    let ranges = parse_ranges(normalize(line.as_str()).as_str(), size);
    match select_range(&ranges, size) {
        None => {
            let mut content_range = text::copy_text("bytes */");
            content_range.append(text::format_decimal(size).as_str());
            RangePlan::Unsatisfiable(content_range)
        },
        Some((start, length)) => {
            let text = format_range(start, length);
            proof {
                http::lemma_known_names();
                lemma_range_text(start, length);
                http::lemma_visible_text(text@);
            }
            if let Some(value) = HeaderValue::from_text(text.as_str()) {
                http::insert_field(fields, "range", &value);
            }
            RangePlan::Partial
        },
    }
}

proof fn lemma_range_text(start: u64, length: u64)
    requires
        0 < length,
    ensures
        http::visible_text(range_text((start, length))),
{
    reveal_strlit("bytes=");
    reveal_strlit("-");
    let first = text::decimal(start as nat);
    let last = text::decimal((start + length - 1) as nat);
    text::lemma_decimal_roundtrip(start as nat);
    text::lemma_decimal_roundtrip((start + length - 1) as nat);
    let whole = range_text((start, length));
    assert forall|i: int| 0 <= i < whole.len() implies ' ' <= #[trigger] whole[i] <= '~' by {
        let a: int = 6 + first.len() as int;
        if i < 6 {
            assert(whole[i] == "bytes="@[i]);
        } else if i < a {
            assert(whole[i] == first[i - 6]);
            assert(text::is_digit(first[i - 6]));
        } else if i == a {
            assert(whole[i] == "-"@[0]);
        } else {
            assert(whole[i] == last[i - a - 1]);
            assert(text::is_digit(last[i - a - 1]));
        }
    }
}

// ---------------------------------------------------------------------------
// Status
// ---------------------------------------------------------------------------
/// The status of a file that is served without conditions.
pub fn plain_status(status: StatusCode, base: StatusCode) -> (adjusted: StatusCode)
    ensures
        adjusted == (if status == http::OK {
            base
        } else {
            status
        }),
{
    if status == http::OK {
        base
    } else {
        status
    }
}

/// The status of a part of a file.
pub fn partial_status(status: StatusCode) -> (adjusted: StatusCode)
    ensures
        adjusted == (if status == http::OK {
            http::PARTIAL_CONTENT
        } else {
            status
        }),
{
    if status == http::OK {
        http::PARTIAL_CONTENT
    } else {
        status
    }
}

/// The status of a whole file that is served under preconditions: a method other
/// than GET and HEAD has none of its own for "not modified".
pub fn whole_status(status: StatusCode, method: FileMethod, base: StatusCode) -> (adjusted:
    StatusCode)
    ensures
        adjusted == (if status == http::NOT_MODIFIED && method == FileMethod::Other {
            http::PRECONDITION_FAILED
        } else if status == http::OK {
            base
        } else {
            status
        }),
{
    if status == http::NOT_MODIFIED && method == FileMethod::Other {
        http::PRECONDITION_FAILED
    } else if status == http::OK {
        base
    } else {
        status
    }
}

// ---------------------------------------------------------------------------
// Laws
// ---------------------------------------------------------------------------
/// A part that is served is not empty and lies within the file, whatever the range
/// parser made of the request.
pub proof fn parts_lie_within_the_file(
    status: StatusCode,
    if_range: bool,
    range: Seq<u8>,
    size: Option<u64>,
)
    ensures
        range_outcome(status, if_range, range, size) matches RangeOutcome::Partial(start, length)
            ==> size is Some && 0 < length && start + length <= size->0,
{
}

/// Nothing of an empty file is served in part.
pub proof fn empty_files_have_no_parts(status: StatusCode, if_range: bool, range: Seq<u8>)
    ensures
        !(range_outcome(status, if_range, range, Some(0u64)) is Partial),
{
}

/// A range of an empty file that is looked at and is text is answered with `416` and
/// the size zero, whatever it asks for.
pub proof fn ranges_of_empty_files_are_unsatisfiable(status: StatusCode, range: Seq<u8>)
    requires
        status != http::NOT_MODIFIED,
        status != http::PRECONDITION_FAILED,
        http::value_text(range) is Some,
    ensures
        range_outcome(status, true, range, Some(0u64)) == RangeOutcome::Unsatisfiable(0),
        range_outcome(status, true, range, Some(0u64)).refusal() == Some(416u16),
{
}

/// Preconditions go before ranges: where one of them decided, neither `If-Range`
/// nor the range is looked at.
pub proof fn preconditions_precede_ranges(
    status: StatusCode,
    if_range: bool,
    range: Seq<u8>,
    size: Option<u64>,
)
    requires
        status == http::NOT_MODIFIED || status == http::PRECONDITION_FAILED,
    ensures
        range_outcome(status, if_range, range, size) is Precondition,
{
}

/// Only a GET is served in part, and only in place of `200 OK`.
pub proof fn only_plain_get_is_partial(fields: Fields, method: FileMethod, base: StatusCode)
    requires
        method != FileMethod::Get || base != http::OK,
    ensures
        requested_range(fields, method, base) is None,
{
}

/// A weak entity tag never lets a range apply.
pub proof fn weak_tags_do_not_match(
    condition: Seq<u8>,
    etag: Option<Seq<u8>>,
    modified: Option<Seq<u8>>,
)
    requires
        http::value_text(condition) matches Some(line) && is_weak(line),
    ensures
        !if_range_holds(Some(condition), etag, modified),
{
}

/// A response that would not be a success has no preconditions.
pub proof fn failures_have_no_preconditions(fields: Fields, method: FileMethod, base: StatusCode)
    requires
        !http::success(base),
    ensures
        projected(fields, method, base) == Map::<Seq<char>, Seq<Seq<u8>>>::empty(),
{
}

/// Entity tags take precedence over dates: with `If-Match` no
/// `If-Unmodified-Since` is evaluated.
pub proof fn if_match_precedes_dates(fields: Fields, method: FileMethod, base: StatusCode)
    requires
        named(fields, "if-match"@),
    ensures
        !projected(fields, method, base).contains_key("if-unmodified-since"@),
{
    lemma_names();
}

/// Where a line begins in the combined line: behind all lines before it, each with its
/// separator.
pub open spec fn line_offset(lines: Seq<Seq<u8>>, i: int) -> int
    decreases i,
{
    if i <= 0 {
        0
    } else {
        line_offset(lines, i - 1) + lines[i - 1].len() + 2
    }
}

proof fn lemma_offsets(a: Seq<Seq<u8>>, b: Seq<Seq<u8>>, i: int)
    requires
        forall|j: int| 0 <= j < i ==> a[j] == b[j],
    ensures
        line_offset(a, i) == line_offset(b, i),
        line_offset(a, i) >= 0,
    decreases i,
{
    if i > 0 {
        lemma_offsets(a, b, i - 1);
    }
}

/// The combined line holds every line of the field, in order and unchanged, with a
/// comma and a space between any two, and nothing else.
pub proof fn every_line_is_combined(lines: Seq<Seq<u8>>, i: int)
    requires
        0 <= i < lines.len(),
        lines[0].len() > 0,
    ensures
        ({
            let line = combined(lines);
            let at = line_offset(lines, i);
            &&& line.len() == line_offset(lines, lines.len() as int) - 2
            &&& 0 <= at
            &&& at + lines[i].len() <= line.len()
            &&& line.subrange(at, at + lines[i].len()) == lines[i]
            &&& i > 0 ==> at >= 2 && line[at - 2] == 0x2c && line[at - 1] == 0x20
        }),
    decreases lines.len(),
{
    let front = lines.drop_last();
    let n: int = lines.len() - 1;
    if n > 0 {
        every_line_is_combined(front, 0);
        lemma_offsets(front, lines, n);
        assert(line_offset(lines, 1) == line_offset(lines, 0) + lines[0].len() + 2);
        assert(combined(front).len() > 0) by {
            assert(line_offset(front, 0) == 0);
            assert(front[0].len() > 0);
        }
        if i < n {
            every_line_is_combined(front, i);
            lemma_offsets(front, lines, i);
            let at: int = line_offset(lines, i);
            assert(combined(lines).subrange(at, at + lines[i].len()) =~= combined(front).subrange(
                at,
                at + lines[i].len(),
            ));
        } else {
            let at: int = line_offset(lines, n);
            assert(combined(lines).subrange(at, at + lines[n].len()) =~= lines[n]);
        }
    } else {
        assert(combined(front).len() == 0);
        assert(line_offset(lines, 1) == line_offset(lines, 0) + lines[0].len() + 2);
        assert(combined(lines).subrange(0, lines[0].len() as int) =~= lines[0]);
    }
}

/// Empty lines in front add nothing, and a field with nothing but empty lines has no
/// combined line.
pub proof fn empty_lines_in_front_add_nothing(lines: Seq<Seq<u8>>)
    ensures
        lines.len() > 0 && lines[0].len() == 0 ==> combined(lines) == combined(lines.skip(1)),
        combined(lines).len() == 0 <==> forall|i: int|
            0 <= i < lines.len() ==> (#[trigger] lines[i]).len() == 0,
    decreases lines.len(),
{
    if lines.len() > 0 {
        let front = lines.drop_last();
        empty_lines_in_front_add_nothing(front);
        assert(lines[lines.len() - 1] == lines.last());
        if lines.len() == 1 {
            assert(lines.skip(1) =~= Seq::<Seq<u8>>::empty());
            assert(combined(front).len() == 0);
            if lines[0].len() == 0 {
                assert(combined(lines) =~= combined(lines.skip(1)));
            }
        } else {
            assert(lines.skip(1).drop_last() =~= front.skip(1));
            assert(lines.skip(1).last() == lines.last());
            assert(front[0] == lines[0]);
        }
        if combined(lines).len() == 0 {
            assert forall|i: int| 0 <= i < lines.len() implies (#[trigger] lines[i]).len() == 0 by {
                if i < front.len() {
                    assert(front[i] == lines[i]);
                }
            }
        } else if forall|i: int| 0 <= i < lines.len() ==> (#[trigger] lines[i]).len() == 0 {
            assert forall|i: int| 0 <= i < front.len() implies (#[trigger] front[i]).len() == 0 by {
                assert(front[i] == lines[i]);
            }
        }
    }
}

/// Whether a field has a line that is not empty.
pub open spec fn has_members(fields: Fields, name: Seq<char>) -> bool {
    fields.contains_key(name) && exists|i: int|
        0 <= i < fields[name].len() && (#[trigger] fields[name][i]).len() > 0
}

proof fn lemma_members(fields: Fields, name: Seq<char>)
    requires
        http::known_name(name),
    ensures
        combined(http::field_values(fields, name)).len() > 0 <==> has_members(fields, name),
        has_members(fields, name) ==> http::field_values(fields, name) == fields[name],
{
    empty_lines_in_front_add_nothing(http::field_values(fields, name));
    if fields.contains_key(name) {
        let lines = http::field_values(fields, name);
        assert(lines == fields[name]);
        if has_members(fields, name) {
            let i: int = choose|i: int|
                0 <= i < fields[name].len() && (#[trigger] fields[name][i]).len() > 0;
            assert(lines[i].len() > 0);
        }
    }
}

/// Where the response would be a success, every precondition of the request that counts
/// is evaluated: the entity tags of all lines of `If-None-Match` and of `If-Match`,
/// `If-Modified-Since` for GET and HEAD, and `If-Unmodified-Since` without `If-Match`.
/// Nothing else is.
pub proof fn preconditions_that_count_are_evaluated(
    fields: Fields,
    method: FileMethod,
    base: StatusCode,
    name: Seq<char>,
)
    requires
        200 <= base < 300,
    ensures
        ({
            let kept = projected(fields, method, base);
            &&& has_members(fields, "if-none-match"@) ==> kept.contains_key("if-none-match"@)
                && kept["if-none-match"@] == seq![combined(fields["if-none-match"@])]
            &&& has_members(fields, "if-match"@) ==> kept.contains_key("if-match"@)
                && kept["if-match"@] == seq![combined(fields["if-match"@])]
            &&& fields.contains_key("if-modified-since"@) && (method is Get || method is Head)
                ==> kept.contains_key("if-modified-since"@) && kept["if-modified-since"@]
                == fields["if-modified-since"@]
            &&& fields.contains_key("if-unmodified-since"@) && !fields.contains_key("if-match"@)
                ==> kept.contains_key("if-unmodified-since"@) && kept["if-unmodified-since"@]
                == fields["if-unmodified-since"@]
            &&& kept.contains_key(name) ==> {
                ||| name == "if-none-match"@ && has_members(fields, name)
                ||| name == "if-match"@ && has_members(fields, name)
                ||| name == "if-modified-since"@ && fields.contains_key(name) && !(method is Other)
                ||| name == "if-unmodified-since"@ && fields.contains_key(name)
                    && !fields.contains_key("if-match"@)
            }
        }),
{
    lemma_names();
    lemma_members(fields, "if-none-match"@);
    lemma_members(fields, "if-match"@);
}

/// A request asks for a part or under a condition exactly if it has one of the fields
/// that do so.
pub proof fn conditions_are_recognized(fields: Fields)
    ensures
        selective(fields) <==> fields.contains_key("range"@) || fields.contains_key(
            "if-none-match"@,
        ) || fields.contains_key("if-match"@) || fields.contains_key("if-modified-since"@)
            || fields.contains_key("if-unmodified-since"@),
        conditional(fields) <==> fields.contains_key("range"@) || fields.contains_key("if-range"@)
            || fields.contains_key("if-none-match"@) || fields.contains_key("if-match"@)
            || fields.contains_key("if-modified-since"@) || fields.contains_key(
            "if-unmodified-since"@,
        ),
{
    lemma_names();
}

proof fn lemma_split_line(unit: Seq<char>, ranges: Seq<char>)
    requires
        !unit.contains('='),
    ensures
        text::split_once_at(unit + seq!['='] + ranges, '=') == Some((unit, ranges)),
{
    let line = unit + seq!['='] + ranges;
    text::split_once_is_at_the_first(line, '=');
    assert(line[unit.len() as int] == '=');
    assert(line.contains('='));
    let (a, b) = text::split_once_at(line, '=')->0;
    assert(line =~= a + seq!['='] + b);
    if a.len() < unit.len() {
        assert(line[a.len() as int] == '=');
        assert(unit[a.len() as int] == '=');
    }
    if a.len() > unit.len() {
        assert(a[unit.len() as int] == line[unit.len() as int]);
    }
    assert(a =~= unit) by {
        assert forall|i: int| 0 <= i < a.len() implies a[i] == unit[i] by {
            assert(line[i] == a[i]);
        }
    }
    assert(b =~= ranges) by {
        assert forall|i: int| 0 <= i < b.len() implies b[i] == ranges[i] by {
            assert(line[a.len() + 1 + i] == b[i]);
        }
    }
}

/// The range of a GET that would be answered `200 OK` is looked at if its unit is bytes,
/// in whatever case, or if it names no unit; one of another unit is not.
pub proof fn byte_ranges_are_looked_at(fields: Fields, unit: Seq<char>, ranges: Seq<char>)
    requires
        fields.contains_key("range"@),
        http::visible(fields["range"@][0]),
        !unit.contains('='),
        http::ascii_text(fields["range"@][0]) == unit + seq!['='] + ranges || (http::ascii_text(
            fields["range"@][0],
        ) == unit && ranges.len() == 0),
    ensures
        ({
            let line = http::ascii_text(fields["range"@][0]);
            let wanted = requested_range(fields, FileMethod::Get, 200);
            if line == unit || text::lowercase(unit) == seq!['b', 'y', 't', 'e', 's'] {
                wanted == Some(fields["range"@][0])
            } else {
                wanted is None
            }
        }),
{
    lemma_names();
    reveal_strlit("bytes");
    assert("bytes"@ =~= seq!['b', 'y', 't', 'e', 's']);
    assert(text::lowercase("bytes"@) =~= "bytes"@);
    let line = http::ascii_text(fields["range"@][0]);
    assert(http::field_values(fields, "range"@) == fields["range"@]);
    if line == unit {
        text::split_once_is_at_the_first(line, '=');
    } else {
        lemma_split_line(unit, ranges);
    }
}

/// A request without a range has none that is looked at.
pub proof fn no_range_is_made_up(fields: Fields, method: FileMethod, base: StatusCode)
    requires
        !fields.contains_key("range"@),
    ensures
        requested_range(fields, method, base) is None,
{
    lemma_names();
}

/// The range parser gets the ranges as the client wrote them, behind the unit in its
/// usual spelling.
pub proof fn ranges_are_handed_on_as_written(unit: Seq<char>, ranges: Seq<char>)
    requires
        !unit.contains('='),
    ensures
        normalized(unit + seq!['='] + ranges) == seq!['b', 'y', 't', 'e', 's', '='] + ranges,
        normalized(unit) == unit,
{
    reveal_strlit("bytes=");
    assert("bytes="@ =~= seq!['b', 'y', 't', 'e', 's', '=']);
    lemma_split_line(unit, ranges);
    text::split_once_is_at_the_first(unit, '=');
}

/// The first range of the request is served, if it is not empty and ends within the
/// file; otherwise none can be satisfied. Neither depends on the further ranges.
pub proof fn the_first_range_is_served(
    status: StatusCode,
    range: Seq<u8>,
    size: u64,
    unit: Seq<char>,
    ranges: Seq<char>,
)
    requires
        status != 304,
        status != 412,
        http::visible(range),
        !unit.contains('='),
        http::ascii_text(range) == unit + seq!['='] + ranges,
    ensures
        match parsed_ranges(seq!['b', 'y', 't', 'e', 's', '='] + ranges, size) {
            Some(list) => if list.len() > 0 && list[0].1 >= 1 && list[0].0 + list[0].1 <= size {
                range_outcome(status, true, range, Some(size)) == RangeOutcome::Partial(
                    list[0].0,
                    list[0].1,
                )
            } else {
                range_outcome(status, true, range, Some(size)) == RangeOutcome::Unsatisfiable(size)
            },
            None => range_outcome(status, true, range, Some(size))
                == RangeOutcome::Unsatisfiable(size),
        },
        range_outcome(status, false, range, Some(size)) is Whole,
        range_outcome(status, true, range, None) is Unreadable,
{
    ranges_are_handed_on_as_written(unit, ranges);
}

/// A range that is no text is refused as malformed, where it is looked at.
pub proof fn unreadable_ranges_are_malformed(status: StatusCode, range: Seq<u8>, size: u64)
    requires
        status != 304,
        status != 412,
        !http::visible(range),
    ensures
        range_outcome(status, true, range, Some(size)) is Malformed,
        range_outcome(status, true, range, Some(size)).refusal() == Some(400u16),
{
}

/// The text of a part reads back as its first and its last byte.
pub proof fn parts_are_written_by_their_ends(start: u64, length: u64)
    requires
        0 < length,
    ensures
        ({
            let written = range_text((start, length));
            &&& written.len() > 6
            &&& written.take(6) == seq!['b', 'y', 't', 'e', 's', '=']
            &&& text::split_once_at(written.skip(6), '-') matches Some((first, last))
                && text::all_digits(first) && text::all_digits(last) && text::decimal_value(first)
                == start && text::decimal_value(last) == start + length - 1
        }),
{
    reveal_strlit("bytes=");
    reveal_strlit("-");
    let first = text::decimal(start as nat);
    let last = text::decimal((start + length - 1) as nat);
    text::lemma_decimal_roundtrip(start as nat);
    text::lemma_decimal_roundtrip((start + length - 1) as nat);
    let written = range_text((start, length));
    let rest = first + seq!['-'] + last;
    assert(written.take(6) =~= seq!['b', 'y', 't', 'e', 's', '=']);
    assert(written.skip(6) =~= rest);
    text::split_once_is_at_the_first(rest, '-');
    assert(rest[first.len() as int] == '-');
    assert(rest.contains('-'));
    assert(!first.contains('-')) by {
        if first.contains('-') {
            let i: int = choose|i: int| 0 <= i < first.len() && first[i] == '-';
            assert(text::is_digit(first[i]));
        }
    }
    let (a, b) = text::split_once_at(rest, '-')->0;
    assert(rest =~= a + seq!['-'] + b);
    if a.len() < first.len() {
        assert(rest[a.len() as int] == '-');
        assert(first[a.len() as int] == '-');
    }
    if a.len() > first.len() {
        assert(a[first.len() as int] == rest[first.len() as int]);
    }
    assert(a =~= first) by {
        assert forall|i: int| 0 <= i < a.len() implies a[i] == first[i] by {
            assert(rest[i] == a[i]);
        }
    }
    assert(b =~= last) by {
        assert forall|i: int| 0 <= i < b.len() implies b[i] == last[i] by {
            assert(rest[a.len() + 1 + i] == b[i]);
        }
    }
}

/// An entity tag lets a range apply exactly if it is strong and that of the file; a
/// date exactly if it is that of the last change; without a condition every range
/// applies.
pub proof fn ranges_apply_to_the_same_file(
    condition: Seq<u8>,
    etag: Option<Seq<u8>>,
    modified: Option<Seq<u8>>,
)
    ensures
        if_range_holds(None, etag, modified),
        condition.len() > 0 && condition[0] == 0x22 && http::visible(condition) ==> (
        if_range_holds(Some(condition), etag, modified) <==> etag == Some(condition)),
        condition.len() >= 2 && condition[0] == 0x57 && condition[1] == 0x2f ==> !if_range_holds(
            Some(condition),
            etag,
            modified,
        ),
        condition.len() > 0 && condition[0] != 0x22 && condition[0] != 0x57 && http::visible(
            condition,
        ) ==> (if_range_holds(Some(condition), etag, modified) <==> modified is Some
            && modified_date(modified->0) is Some && http_date(http::ascii_text(condition))
            == modified_date(modified->0)),
        !http::visible(condition) ==> !if_range_holds(Some(condition), etag, modified),
{
    let line = http::ascii_text(condition);
    if condition.len() > 0 {
        assert(line[0] == condition[0] as char);
        assert((condition[0] as char) as u8 == condition[0]);
        assert((0x22u8 as char) == '"');
        assert((0x57u8 as char) == 'W');
    }
    if condition.len() >= 2 {
        assert(line[1] == condition[1] as char);
        assert((0x2fu8 as char) == '/');
    }
}

/// A request with a precondition, to which the answer would be a success, is answered
/// under the preconditions that count; one without any field of that kind is answered as
/// it is.
pub proof fn file_plans_evaluate_preconditions(
    request: &FileRequest<'_>,
    base: StatusCode,
    plan: FilePlan,
)
    requires
        200 <= base < 300,
        call_ensures(file_response, (request, base), plan),
    ensures
        ({
            let fields = http::header_fields(*request.headers);
            &&& has_members(fields, "if-none-match"@) ==> (plan matches FilePlan::Projected {
                headers,
                ..
            } && http::header_fields(headers).contains_key("if-none-match"@)
                && http::header_fields(headers)["if-none-match"@] == seq![
                combined(fields["if-none-match"@]),
            ])
            &&& has_members(fields, "if-match"@) ==> (plan matches FilePlan::Projected {
                headers,
                ..
            } && http::header_fields(headers).contains_key("if-match"@)
                && http::header_fields(headers)["if-match"@] == seq![combined(fields["if-match"@])])
            &&& fields.contains_key("if-modified-since"@) && !(request.method is Other) ==> (
            plan matches FilePlan::Projected { headers, .. } && http::header_fields(
                headers,
            ).contains_key("if-modified-since"@) && http::header_fields(
                headers,
            )["if-modified-since"@] == fields["if-modified-since"@])
            &&& fields.contains_key("range"@) && request.method is Get && base == 200 && (
            byte_unit(fields["range"@][0])) ==> (plan matches FilePlan::Projected { range, .. }
                && optional_bytes(range) == Some(fields["range"@][0]))
            &&& fields.dom().is_empty() ==> plan is Plain
            &&& !(plan is Bare)
        }),
{
    lemma_names();
    let fields = http::header_fields(*request.headers);
    preconditions_that_count_are_evaluated(fields, request.method, base, "if-match"@);
    conditions_are_recognized(fields);
}

/// A redirect is never put off: a request under a condition is answered with it at once.
pub proof fn redirects_are_not_conditional(
    request: &FileRequest<'_>,
    base: StatusCode,
    plan: FilePlan,
)
    requires
        300 <= base < 400,
        call_ensures(file_response, (request, base), plan),
        http::header_fields(*request.headers).contains_key("range"@) || http::header_fields(
            *request.headers,
        ).contains_key("if-none-match"@) || http::header_fields(*request.headers).contains_key(
            "if-match"@,
        ),
    ensures
        plan == FilePlan::Bare(base),
{
    lemma_names();
}

/// A file takes the status of its route where it would be a plain success, and only then.
/// `304` is kept for GET and HEAD, and is a failed precondition for other methods; a part
/// is `206`.
pub proof fn statuses_are_adjusted(
    status: StatusCode,
    method: FileMethod,
    base: StatusCode,
    plain: StatusCode,
    whole: StatusCode,
    part: StatusCode,
)
    requires
        call_ensures(plain_status, (status, base), plain),
        call_ensures(whole_status, (status, method, base), whole),
        call_ensures(partial_status, (status,), part),
    ensures
        status == 200 ==> plain == base && whole == base && part == 206,
        status != 200 ==> plain == status && part == status,
        status == 304 ==> whole == (if method is Other {
            412u16
        } else {
            304u16
        }),
        status != 200 && status != 304 ==> whole == status,
{
}

/// A time that an HTTP date can write is supported, up to the last second of the year
/// 9999; one before 1970 or behind that is not, and one that is not known is.
pub proof fn times_that_can_be_written_are_supported(
    modified: Option<Option<u64>>,
    unsupported: bool,
)
    requires
        call_ensures(unsupported_modified, (modified,), unsupported),
    ensures
        modified is None ==> !unsupported,
        modified == Some(None::<u64>) ==> unsupported,
        modified matches Some(Some(seconds)) ==> (unsupported <==> seconds > 253_402_300_799),
{
}

/// What is refused for its range is refused with the status that says why.
pub proof fn refused_ranges_have_their_status(plan: &RangePlan, status: Option<StatusCode>)
    requires
        call_ensures(RangePlan::status, (plan,), status),
    ensures
        status == Some(416u16) <==> plan is Unsatisfiable,
        status == Some(400u16) <==> plan is Malformed,
        status == Some(500u16) <==> plan is Unreadable,
        status is None <==> plan is Precondition || plan is Whole || plan is Partial,
{
}

/// A plan for a part asks for that part and changes no other field; every other plan
/// changes none. A part is planned only where no precondition decided and the size is
/// known; where `If-Range` does not hold, the whole file is.
pub proof fn range_plans_ask_for_the_part(
    request: &FileRequest<'_>,
    fields: &mut HeaderMap,
    range: &HeaderValue,
    preview: &Preview<'_>,
    size: Option<u64>,
    plan: RangePlan,
    name: Seq<char>,
)
    requires
        call_ensures(plan_range, (request, fields, range, preview, size), plan),
    ensures
        ({
            let before = http::header_fields(*old(fields));
            let after = http::header_fields(*final(fields));
            let own = http::header_fields(*request.headers);
            &&& !(plan is Partial) ==> after == before
            &&& plan is Partial ==> after.contains_key("range"@) && after["range"@].len() == 1
            &&& name != "range"@ ==> after.contains_key(name) == before.contains_key(name) && (
            before.contains_key(name) ==> after[name] == before[name])
            &&& plan is Precondition <==> preview.status == 304 || preview.status == 412
            &&& plan is Partial || plan is Unsatisfiable ==> size is Some && http::visible(range@)
            &&& plan is Partial ==> size->0 > 0
            &&& preview.status != 304 && preview.status != 412 && !own.contains_key("if-range"@)
                ==> !(plan is Whole)
        }),
{
    lemma_names();
}

/// `If-Range` is held against the current entity tag: the range is looked at exactly if the
/// strong tag that it names is the current one.
pub proof fn ranges_are_held_against_the_current_tag(
    request: &FileRequest<'_>,
    fields: &mut HeaderMap,
    range: &HeaderValue,
    preview: &Preview<'_>,
    size: Option<u64>,
    plan: RangePlan,
)
    requires
        call_ensures(plan_range, (request, fields, range, preview, size), plan),
        preview.status != 304,
        preview.status != 412,
        http::header_fields(*request.headers).contains_key("if-range"@),
        http::header_fields(*preview.headers).contains_key("etag"@),
        http::visible(http::header_fields(*request.headers)["if-range"@][0]),
        http::header_fields(*request.headers)["if-range"@][0].len() > 0,
        http::header_fields(*request.headers)["if-range"@][0][0] == 0x22,
    ensures
        plan is Whole <==> http::header_fields(*request.headers)["if-range"@][0]
            != http::header_fields(*preview.headers)["etag"@][0],
{
    lemma_names();
    http::lemma_known_names();
    reveal_strlit("etag");
    http::lemma_plain_name("etag"@);
    reveal_strlit("last-modified");
    http::lemma_plain_name("last-modified"@);
    let own = http::header_fields(*request.headers);
    let current = http::header_fields(*preview.headers);
    assert(first_of(own, "if-range"@) == Some(own["if-range"@][0]));
    assert(first_of(current, "etag"@) == Some(current["etag"@][0]));
    ranges_apply_to_the_same_file(
        own["if-range"@][0],
        first_of(current, "etag"@),
        first_of(current, "last-modified"@),
    );
}

} // verus!
