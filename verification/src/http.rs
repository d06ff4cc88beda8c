//! HTTP vocabulary: status codes, methods, header names, header values and the
//! header multimap.

use crate::text::{self, chars_of, copy_bytes, copy_text, to_lower_char};
use ntex::http::header::{HeaderName as NativeName, HeaderValue as NativeValue};
use ntex::http::HeaderMap;
use vstd::prelude::*;

verus! {

// ---------------------------------------------------------------------------
// Status codes
// ---------------------------------------------------------------------------
/// An HTTP status code: three decimal digits.
pub type StatusCode = u16;

pub open spec fn valid_status(status: StatusCode) -> bool {
    100 <= status <= 999
}

pub open spec fn success(status: StatusCode) -> bool {
    200 <= status <= 299
}

pub open spec fn redirection(status: StatusCode) -> bool {
    300 <= status <= 399
}

/// A client error or a server error.
pub open spec fn failure(status: StatusCode) -> bool {
    400 <= status <= 599
}

pub const OK: StatusCode = 200;

pub const PARTIAL_CONTENT: StatusCode = 206;

pub const FOUND: StatusCode = 302;

pub const NOT_MODIFIED: StatusCode = 304;

pub const BAD_REQUEST: StatusCode = 400;

pub const NOT_FOUND: StatusCode = 404;

pub const METHOD_NOT_ALLOWED: StatusCode = 405;

pub const NOT_ACCEPTABLE: StatusCode = 406;

pub const PRECONDITION_FAILED: StatusCode = 412;

pub const PAYLOAD_TOO_LARGE: StatusCode = 413;

pub const RANGE_NOT_SATISFIABLE: StatusCode = 416;

pub const INTERNAL_SERVER_ERROR: StatusCode = 500;

pub const SERVICE_UNAVAILABLE: StatusCode = 503;

pub fn is_success(status: StatusCode) -> (b: bool)
    ensures
        b == success(status),
{
    200 <= status && status <= 299
}

pub fn is_redirection(status: StatusCode) -> (b: bool)
    ensures
        b == redirection(status),
{
    300 <= status && status <= 399
}

pub fn is_failure(status: StatusCode) -> (b: bool)
    ensures
        b == failure(status),
{
    400 <= status && status <= 599
}

// ---------------------------------------------------------------------------
// Header values
// ---------------------------------------------------------------------------
/// Bytes that a header value may hold: everything but control bytes, except tab.
pub open spec fn value_byte(b: u8) -> bool {
    (b >= 32 && b != 127) || b == 9
}

/// Bytes that a header value may hold and still be read as text.
pub open spec fn visible_byte(b: u8) -> bool {
    (b >= 32 && b < 127) || b == 9
}

pub open spec fn valid_value(bytes: Seq<u8>) -> bool {
    forall|i: int| 0 <= i < bytes.len() ==> value_byte(#[trigger] bytes[i])
}

pub open spec fn visible(bytes: Seq<u8>) -> bool {
    forall|i: int| 0 <= i < bytes.len() ==> visible_byte(#[trigger] bytes[i])
}

/// The characters of visible bytes, one for one.
pub open spec fn ascii_text(bytes: Seq<u8>) -> Seq<char> {
    bytes.map_values(|b: u8| b as char)
}

/// The text of a header value, if all its bytes are visible.
pub open spec fn value_text(bytes: Seq<u8>) -> Option<Seq<char>> {
    if visible(bytes) {
        Some(ascii_text(bytes))
    } else {
        None
    }
}

/// A header value.
#[derive(Debug)]
pub struct HeaderValue {
    bytes: Vec<u8>,
}

impl View for HeaderValue {
    type V = Seq<u8>;

    closed spec fn view(&self) -> Seq<u8> {
        self.bytes@
    }
}

/// The bytes of every value.
pub open spec fn value_bytes(values: Seq<HeaderValue>) -> Seq<Seq<u8>> {
    values.map_values(|value: HeaderValue| value@)
}

impl HeaderValue {
    #[verifier::type_invariant]
    spec fn well_formed(self) -> bool {
        valid_value(self.bytes@)
    }

    /// Accepts bytes that are legal in a header value.
    pub fn from_bytes(bytes: &[u8]) -> (value: Option<HeaderValue>)
        ensures
            match value {
                Some(v) => valid_value(bytes@) && v@ == bytes@,
                None => !valid_value(bytes@),
            },
    {
        let mut i: usize = 0;
        while i < bytes.len()
            invariant
                i <= bytes.len(),
                forall|j: int| 0 <= j < i ==> value_byte(#[trigger] bytes@[j]),
            decreases bytes.len() - i,
        {
            let b = bytes[i];
            if !((b >= 32 && b != 127) || b == 9) {
                proof {
                    assert(!value_byte(bytes@[i as int]));
                }
                return None;
            }
            i = i + 1;
        }
        Some(HeaderValue { bytes: copy_bytes(bytes) })
    }

    /// Accepts a text whose UTF-8 bytes are legal in a header value.
    pub fn from_text(source: &str) -> (value: Option<HeaderValue>)
        ensures
            match value {
                Some(v) => valid_value(vstd::utf8::encode_utf8(source@)) && v@
                    == vstd::utf8::encode_utf8(source@),
                None => !valid_value(vstd::utf8::encode_utf8(source@)),
            },
    {
        HeaderValue::from_bytes(source.as_bytes())
    }

    pub fn as_bytes(&self) -> (bytes: &[u8])
        ensures
            bytes@ == self@,
            valid_value(bytes@),
    {
        proof {
            use_type_invariant(self);
        }
        self.bytes.as_slice()
    }

    /// The value as text, if every byte of it is visible.
    pub fn to_text(&self) -> (text: Option<String>)
        ensures
            match text {
                Some(s) => value_text(self@) == Some(s@),
                None => value_text(self@) is None,
            },
    {
        let mut text = String::new();
        let mut i: usize = 0;
        while i < self.bytes.len()
            invariant
                i <= self.bytes.len(),
                self.bytes@ == self@,
                forall|j: int| 0 <= j < i ==> visible_byte(#[trigger] self.bytes@[j]),
                text@ == ascii_text(self.bytes@.take(i as int)),
            decreases self.bytes.len() - i,
        {
            let b = self.bytes[i];
            if !((b >= 32 && b < 127) || b == 9) {
                proof {
                    assert(!visible_byte(self.bytes@[i as int]));
                }
                return None;
            }
            text.push(b as char);
            proof {
                assert(self.bytes@.take(i + 1) =~= self.bytes@.take(i as int).push(b));
                assert(text@ =~= ascii_text(self.bytes@.take(i + 1)));
            }
            i = i + 1;
        }
        proof {
            assert(self.bytes@.take(i as int) =~= self.bytes@);
        }
        Some(text)
    }
}

impl Clone for HeaderValue {
    fn clone(&self) -> (copy: Self)
        ensures
            copy@ == self@,
    {
        proof {
            use_type_invariant(self);
        }
        HeaderValue { bytes: copy_bytes(self.bytes.as_slice()) }
    }
}

// ---------------------------------------------------------------------------
// Header names
// ---------------------------------------------------------------------------
/// The punctuation of an HTTP token.
pub open spec fn token_mark(c: char) -> bool {
    ||| c == '!'
    ||| c == '#'
    ||| c == '$'
    ||| c == '%'
    ||| c == '&'
    ||| c == '\''
    ||| c == '*'
    ||| c == '+'
    ||| c == '-'
    ||| c == '.'
    ||| c == '^'
    ||| c == '_'
    ||| c == '`'
    ||| c == '|'
    ||| c == '~'
}

/// A character of an HTTP token.
pub open spec fn token_char(c: char) -> bool {
    'a' <= c <= 'z' || 'A' <= c <= 'Z' || '0' <= c <= '9' || token_mark(c)
}

/// A non-empty text of token characters.
pub open spec fn is_token_text(s: Seq<char>) -> bool {
    s.len() > 0 && forall|i: int| 0 <= i < s.len() ==> token_char(#[trigger] s[i])
}

pub fn is_token_char(c: char) -> (b: bool)
    ensures
        b == token_char(c),
{
    ('a' <= c && c <= 'z') || ('A' <= c && c <= 'Z') || ('0' <= c && c <= '9') || c == '!' || c
        == '#' || c == '$' || c == '%' || c == '&' || c == '\'' || c == '*' || c == '+' || c == '-'
        || c == '.' || c == '^' || c == '_' || c == '`' || c == '|' || c == '~'
}

/// The longest header name.
pub const MAX_NAME_LEN: usize = 65535;

/// A text that names a field: a token of bounded length, in any case.
pub open spec fn names_field(s: Seq<char>) -> bool {
    is_token_text(s) && s.len() <= MAX_NAME_LEN
}

/// A character of a header name. HTTP/2 lets a name hold the double quote too, which
/// no token holds.
pub open spec fn name_char(c: char) -> bool {
    token_char(c) || c == '"'
}

/// A header name in its normal form: a lower-case text of name characters, of bounded
/// length.
pub open spec fn valid_name(s: Seq<char>) -> bool {
    &&& 0 < s.len() <= MAX_NAME_LEN
    &&& forall|i: int| 0 <= i < s.len() ==> name_char(#[trigger] s[i])
    &&& s == text::lowercase(s)
}

/// A text that names a field does so by its normal form.
pub proof fn lemma_named(s: Seq<char>)
    requires
        names_field(s),
    ensures
        valid_name(text::lowercase(s)),
        names_field(text::lowercase(s)),
{
    let low = text::lowercase(s);
    assert(text::lowercase(low) =~= low);
    assert forall|j: int| 0 <= j < low.len() implies token_char(#[trigger] low[j]) by {
        assert(low[j] == text::lower_char(s[j]));
        assert(token_char(s[j]));
    }
    assert forall|j: int| 0 <= j < low.len() implies name_char(#[trigger] low[j]) by {
        assert(token_char(low[j]));
    }
}

/// A header name in its normal form.
#[derive(Debug)]
pub struct HeaderName {
    text: String,
}

impl View for HeaderName {
    type V = Seq<char>;

    closed spec fn view(&self) -> Seq<char> {
        self.text@
    }
}

/// The texts of every name.
pub open spec fn name_texts(names: Seq<HeaderName>) -> Seq<Seq<char>> {
    names.map_values(|name: HeaderName| name@)
}

impl HeaderName {
    #[verifier::type_invariant]
    spec fn well_formed(self) -> bool {
        valid_name(self.text@)
    }

    /// Accepts a token of bounded length, in any case.
    pub fn from_text(text: &str) -> (name: Option<HeaderName>)
        ensures
            match name {
                Some(n) => names_field(text@) && n@ == text::lowercase(text@),
                None => !names_field(text@),
            },
    {
        let chars = chars_of(text);
        if chars.len() == 0 || chars.len() > MAX_NAME_LEN {
            return None;
        }
        let mut lowered = String::new();
        let mut i: usize = 0;
        while i < chars.len()
            invariant
                chars@ == text@,
                i <= chars.len(),
                forall|j: int| 0 <= j < i ==> token_char(#[trigger] chars@[j]),
                lowered@ == text::lowercase(chars@.take(i as int)),
            decreases chars.len() - i,
        {
            let c = chars[i];
            if !is_token_char(c) {
                proof {
                    assert(!token_char(text@[i as int]));
                }
                return None;
            }
            lowered.push(to_lower_char(c));
            proof {
                assert(chars@.take(i + 1) =~= chars@.take(i as int).push(c));
                assert(lowered@ =~= text::lowercase(chars@.take(i + 1)));
            }
            i = i + 1;
        }
        proof {
            assert(chars@.take(i as int) =~= chars@);
            lemma_named(text@);
        }
        Some(HeaderName { text: lowered })
    }

    /// Accepts a name in normal form.
    pub fn from_lowercase(text: &str) -> (name: Option<HeaderName>)
        ensures
            match name {
                Some(n) => valid_name(text@) && n@ == text@,
                None => !valid_name(text@),
            },
    {
        let chars = chars_of(text);
        if chars.len() == 0 || chars.len() > MAX_NAME_LEN {
            return None;
        }
        let mut i: usize = 0;
        while i < chars.len()
            invariant
                chars@ == text@,
                i <= chars.len(),
                forall|j: int|
                    0 <= j < i ==> name_char(#[trigger] text@[j]) && text::lower_char(text@[j])
                        == text@[j],
            decreases chars.len() - i,
        {
            let c = chars[i];
            if !(is_token_char(c) || c == '"') || to_lower_char(c) != c {
                proof {
                    assert(!name_char(text@[i as int]) || text::lowercase(text@)[i as int]
                        != text@[i as int]);
                }
                return None;
            }
            i = i + 1;
        }
        proof {
            assert(text@ =~= text::lowercase(text@));
        }
        Some(HeaderName { text: copy_text(text) })
    }

    pub fn as_str(&self) -> (text: &str)
        ensures
            text@ == self@,
            valid_name(text@),
    {
        proof {
            use_type_invariant(self);
        }
        self.text.as_str()
    }
}

impl Clone for HeaderName {
    fn clone(&self) -> (copy: Self)
        ensures
            copy@ == self@,
    {
        proof {
            use_type_invariant(self);
        }
        HeaderName { text: self.text.clone() }
    }
}

// ---------------------------------------------------------------------------
// The header multimap
// ---------------------------------------------------------------------------
/// The multimap of header fields of an ntex request or response.
#[verifier::external_type_specification]
#[verifier::external_body]
pub struct ExHeaderMap(HeaderMap);

/// What a header multimap holds: for each name in normal form that has values, those
/// values, in the order in which they were added.
pub uninterp spec fn header_fields(map: HeaderMap) -> Map<Seq<char>, Seq<Seq<u8>>>;

/// The values of the field with a name in normal form, none if there is no such field.
pub open spec fn stored_values(fields: Map<Seq<char>, Seq<Seq<u8>>>, name: Seq<char>) -> Seq<
    Seq<u8>,
> {
    if fields.contains_key(name) {
        fields[name]
    } else {
        Seq::empty()
    }
}

/// The values of the field that a text names, in any case. A text that is no token of
/// bounded length names none.
pub open spec fn field_values(fields: Map<Seq<char>, Seq<Seq<u8>>>, name: Seq<char>) -> Seq<
    Seq<u8>,
> {
    if names_field(name) {
        stored_values(fields, text::lowercase(name))
    } else {
        Seq::empty()
    }
}

/// The values of the field of `map` that a text names.
pub open spec fn values_of(map: HeaderMap, name: Seq<char>) -> Seq<Seq<u8>> {
    field_values(header_fields(map), name)
}

/// Whether a text names a field of `map`.
pub open spec fn has_field(map: HeaderMap, name: Seq<char>) -> bool {
    names_field(name) && header_fields(map).contains_key(text::lowercase(name))
}

/// `HeaderMap::new` holds no field.
#[verifier::external_body]
pub(crate) fn empty_headers() -> (map: HeaderMap)
    ensures
        header_fields(map).is_empty(),
{
    HeaderMap::new()
}

/// `HeaderMap::get_all` of a name yields the values of its field in the order in which
/// they were added, and none exactly when there is no such field.
#[verifier::external_body]
pub(crate) fn named_values(map: &HeaderMap, name: &HeaderName) -> (values: Vec<HeaderValue>)
    ensures
        value_bytes(values@) == stored_values(header_fields(*map), name@),
        values@.len() > 0 <==> header_fields(*map).contains_key(name@),
{
    let name = NativeName::from_lowercase(name.text.as_bytes()).unwrap();
    map.get_all(name).map(|v| HeaderValue { bytes: v.as_bytes().to_vec() }).collect()
}

/// `HeaderMap::keys` yields every name once, in no particular order. Among them is
/// every name that has values; that there is no other is not said, since ntex can hold
/// a name without any.
#[verifier::external_body]
pub(crate) fn header_names(map: &HeaderMap) -> (names: Vec<HeaderName>)
    ensures
        name_texts(names@).no_duplicates(),
        header_fields(*map).dom().subset_of(name_texts(names@).to_set()),
{
    map.keys().map(|n| HeaderName { text: n.as_str().to_owned() }).collect()
}

/// `HeaderMap::insert` leaves the new value as the only one of its field.
#[verifier::external_body]
pub(crate) fn insert_named(map: &mut HeaderMap, name: &HeaderName, value: &HeaderValue)
    ensures
        header_fields(*final(map)) == header_fields(*old(map)).insert(name@, seq![value@]),
{
    let name = NativeName::from_lowercase(name.text.as_bytes()).unwrap();
    map.insert(name, NativeValue::from_bytes(&value.bytes).unwrap());
}

/// `HeaderMap::append` adds a value behind those that its field already has.
#[verifier::external_body]
pub(crate) fn append_named(map: &mut HeaderMap, name: &HeaderName, value: &HeaderValue)
    ensures
        header_fields(*final(map)) == header_fields(*old(map)).insert(
            name@,
            stored_values(header_fields(*old(map)), name@).push(value@),
        ),
{
    let name = NativeName::from_lowercase(name.text.as_bytes()).unwrap();
    map.append(name, NativeValue::from_bytes(&value.bytes).unwrap());
}

/// `HeaderMap::remove` of a name drops its field with all its values.
#[verifier::external_body]
pub(crate) fn remove_named(map: &mut HeaderMap, name: &HeaderName)
    ensures
        header_fields(*final(map)) == header_fields(*old(map)).remove(name@),
{
    map.remove(NativeName::from_lowercase(name.text.as_bytes()).unwrap());
}

/// Whether a text names a field.
pub(crate) fn contains_header(map: &HeaderMap, name: &str) -> (found: bool)
    ensures
        found == has_field(*map, name@),
{
    header_values(map, name).len() > 0
}

/// The values of the field that a text names.
pub(crate) fn header_values(map: &HeaderMap, name: &str) -> (values: Vec<HeaderValue>)
    ensures
        value_bytes(values@) == values_of(*map, name@),
        values@.len() > 0 <==> has_field(*map, name@),
{
    match HeaderName::from_text(name) {
        Some(name) => named_values(map, &name),
        None => {
            let values: Vec<HeaderValue> = Vec::new();
            proof {
                assert(value_bytes(values@) =~= Seq::empty());
            }
            values
        },
    }
}

/// Leaves a value as the only one of a field.
pub(crate) fn insert_field(map: &mut HeaderMap, name: &str, value: &HeaderValue)
    requires
        valid_name(name@),
    ensures
        header_fields(*final(map)) == header_fields(*old(map)).insert(name@, seq![value@]),
{
    if let Some(name) = HeaderName::from_lowercase(name) {
        insert_named(map, &name, value);
    }
}

/// Adds a value behind those that a field already has.
pub(crate) fn append_field(map: &mut HeaderMap, name: &str, value: &HeaderValue)
    requires
        valid_name(name@),
    ensures
        header_fields(*final(map)) == header_fields(*old(map)).insert(
            name@,
            stored_values(header_fields(*old(map)), name@).push(value@),
        ),
{
    if let Some(name) = HeaderName::from_lowercase(name) {
        append_named(map, &name, value);
    }
}

/// Drops the field that a text names.
pub(crate) fn remove_field(map: &mut HeaderMap, name: &str)
    requires
        names_field(name@),
    ensures
        header_fields(*final(map)) == header_fields(*old(map)).remove(text::lowercase(name@)),
{
    if let Some(name) = HeaderName::from_text(name) {
        remove_named(map, &name);
    }
}

/// The first value of a field.
pub fn first_value(map: &HeaderMap, name: &str) -> (value: Option<HeaderValue>)
    ensures
        match value {
            Some(v) => has_field(*map, name@) && v@ == values_of(*map, name@)[0],
            None => !has_field(*map, name@),
        },
        value is Some ==> values_of(*map, name@).len() > 0,
{
    let values = header_values(map, name);
    if values.len() > 0 {
        let v = values[0].clone();
        proof {
            assert(value_bytes(values@)[0] == v@);
        }
        Some(v)
    } else {
        None
    }
}

/// The text of the first value of a field, where it can be read as text.
pub open spec fn first_text(map: HeaderMap, name: Seq<char>) -> Option<Seq<char>> {
    if has_field(map, name) {
        value_text(values_of(map, name)[0])
    } else {
        None
    }
}

pub fn first_value_text(map: &HeaderMap, name: &str) -> (text: Option<String>)
    ensures
        match text {
            Some(s) => first_text(*map, name@) == Some(s@),
            None => first_text(*map, name@) is None,
        },
{
    match first_value(map, name) {
        Some(v) => v.to_text(),
        None => None,
    }
}

/// A text of lower-case letters, digits and hyphens is a header name.
pub open spec fn plain_name(s: Seq<char>) -> bool {
    &&& 0 < s.len() <= MAX_NAME_LEN
    &&& forall|i: int| 0 <= i < s.len() ==> plain_name_char(#[trigger] s[i])
}

pub open spec fn plain_name_char(c: char) -> bool {
    'a' <= c <= 'z' || '0' <= c <= '9' || c == '-'
}

/// A plain name is a legal field name in normal form.
pub proof fn lemma_plain_name(s: Seq<char>)
    requires
        plain_name(s),
    ensures
        known_name(s),
{
    assert forall|i: int| 0 <= i < s.len() implies token_char(#[trigger] s[i]) by {
        assert(plain_name_char(s[i]));
    }
    assert forall|i: int| 0 <= i < s.len() implies name_char(#[trigger] s[i]) by {
        assert(token_char(s[i]));
    }
    assert forall|i: int| 0 <= i < s.len() implies text::lowercase(s)[i] == s[i] by {
        assert(plain_name_char(s[i]));
    }
    assert(text::lowercase(s) =~= s);
}

/// Whether a text consists of visible ASCII characters.
pub open spec fn visible_text(s: Seq<char>) -> bool {
    forall|i: int| 0 <= i < s.len() ==> ' ' <= #[trigger] s[i] <= '~'
}

/// A visible text is a legal header value, and is read back as it was written.
pub proof fn lemma_visible_text(s: Seq<char>)
    requires
        visible_text(s),
    ensures
        valid_value(vstd::utf8::encode_utf8(s)),
        value_text(vstd::utf8::encode_utf8(s)) == Some(s),
{
    let bytes = vstd::utf8::encode_utf8(s);
    assert(vstd::utf8::is_ascii_chars(s));
    vstd::utf8::is_ascii_chars_encode_utf8(s);
    assert(bytes.len() == s.len());
    assert forall|i: int| 0 <= i < bytes.len() implies visible_byte(#[trigger] bytes[i]) && value_byte(
        bytes[i],
    ) && bytes[i] as char == s[i] by {
        assert(' ' <= s[i] <= '~');
    }
    assert(ascii_text(bytes) =~= s);
}

/// A name in normal form that is also a token.
pub open spec fn known_name(s: Seq<char>) -> bool {
    valid_name(s) && names_field(s) && text::lowercase(s) == s
}

/// The field names that this crate writes are tokens in normal form.
pub proof fn lemma_known_names()
    ensures
        known_name("content-type"@),
        known_name("location"@),
        known_name("vary"@),
        known_name("content-encoding"@),
        known_name("content-language"@),
        known_name("content-range"@),
        known_name("range"@),
        known_name("if-range"@),
        known_name("if-match"@),
        known_name("if-none-match"@),
        known_name("if-modified-since"@),
        known_name("if-unmodified-since"@),
        known_name("sec-websocket-version"@),
        known_name("sec-websocket-protocol"@),
        known_name("serverfnredirect"@),
        known_name("serverfnerror"@),
        known_name("allow"@),
{
    reveal_strlit("content-type");
    lemma_plain_name("content-type"@);
    reveal_strlit("location");
    lemma_plain_name("location"@);
    reveal_strlit("vary");
    lemma_plain_name("vary"@);
    reveal_strlit("content-encoding");
    lemma_plain_name("content-encoding"@);
    reveal_strlit("content-language");
    lemma_plain_name("content-language"@);
    reveal_strlit("content-range");
    lemma_plain_name("content-range"@);
    reveal_strlit("range");
    lemma_plain_name("range"@);
    reveal_strlit("if-range");
    lemma_plain_name("if-range"@);
    reveal_strlit("if-match");
    lemma_plain_name("if-match"@);
    reveal_strlit("if-none-match");
    lemma_plain_name("if-none-match"@);
    reveal_strlit("if-modified-since");
    lemma_plain_name("if-modified-since"@);
    reveal_strlit("if-unmodified-since");
    lemma_plain_name("if-unmodified-since"@);
    reveal_strlit("sec-websocket-version");
    lemma_plain_name("sec-websocket-version"@);
    reveal_strlit("sec-websocket-protocol");
    lemma_plain_name("sec-websocket-protocol"@);
    reveal_strlit("serverfnredirect");
    lemma_plain_name("serverfnredirect"@);
    reveal_strlit("serverfnerror");
    lemma_plain_name("serverfnerror"@);
    reveal_strlit("allow");
    lemma_plain_name("allow"@);
}

// ---------------------------------------------------------------------------
// Laws
// ---------------------------------------------------------------------------
/// The first digit of a status tells its class.
pub proof fn the_first_digit_tells_the_class(status: StatusCode)
    ensures
        success(status) <==> status / 100 == 2,
        redirection(status) <==> status / 100 == 3,
        failure(status) <==> status / 100 == 4 || status / 100 == 5,
        valid_status(status) <==> 1 <= status / 100 <= 9,
{
}

/// A token holds every visible ASCII character but the delimiters.
pub proof fn tokens_hold_no_delimiters(c: char)
    ensures
        token_char(c) <==> '!' <= c && c <= '~' && c != '"' && c != '(' && c != ')' && c != ','
            && c != '/' && c != ':' && c != ';' && c != '<' && c != '=' && c != '>' && c != '?'
            && c != '@' && c != '[' && c != '\\' && c != ']' && c != '{' && c != '}',
{
}

/// A value is legal unless it holds a control character other than the tab; it is text
/// where it is ASCII besides.
pub proof fn values_hold_no_controls(bytes: Seq<u8>)
    ensures
        valid_value(bytes) <==> forall|i: int|
            0 <= i < bytes.len() ==> (#[trigger] bytes[i] == 9 || bytes[i] > 31) && bytes[i] != 127,
        visible(bytes) <==> valid_value(bytes) && forall|i: int|
            0 <= i < bytes.len() ==> #[trigger] bytes[i] < 128,
        visible(bytes) ==> value_text(bytes) is Some && value_text(bytes)->0.len() == bytes.len(),
        !visible(bytes) ==> value_text(bytes) is None,
{
    if visible(bytes) {
        assert forall|i: int| 0 <= i < bytes.len() implies value_byte(#[trigger] bytes[i]) by {
            assert(visible_byte(bytes[i]));
        }
        assert forall|i: int| 0 <= i < bytes.len() implies #[trigger] bytes[i] < 128 by {
            assert(visible_byte(bytes[i]));
        }
    }
    if valid_value(bytes) {
        assert forall|i: int| 0 <= i < bytes.len() implies (#[trigger] bytes[i] == 9 || bytes[i]
            > 31) && bytes[i] != 127 by {
            assert(value_byte(bytes[i]));
        }
        if forall|i: int| 0 <= i < bytes.len() ==> #[trigger] bytes[i] < 128 {
            assert forall|i: int| 0 <= i < bytes.len() implies visible_byte(#[trigger] bytes[i]) by {
                assert(value_byte(bytes[i]));
            }
        }
    } else if forall|i: int|
        0 <= i < bytes.len() ==> (#[trigger] bytes[i] == 9 || bytes[i] > 31) && bytes[i] != 127 {
        assert forall|i: int| 0 <= i < bytes.len() implies value_byte(#[trigger] bytes[i]) by {}
    }
}

/// Text is read byte for byte: different values have different texts.
pub proof fn texts_tell_values_apart(a: Seq<u8>, b: Seq<u8>)
    requires
        visible(a),
        visible(b),
        value_text(a) == value_text(b),
    ensures
        a == b,
{
    assert(ascii_text(a).len() == a.len() && ascii_text(b).len() == b.len());
    assert forall|i: int| 0 <= i < a.len() implies a[i] == b[i] by {
        assert(ascii_text(a)[i] == a[i] as char);
        assert(ascii_text(b)[i] == b[i] as char);
        assert((a[i] as char) as u8 == a[i]);
        assert((b[i] as char) as u8 == b[i]);
    }
    assert(a =~= b);
}

/// The case in which a field is asked for does not matter, and what is no name of a field
/// has no values.
pub proof fn fields_are_found_in_any_case(
    fields: Map<Seq<char>, Seq<Seq<u8>>>,
    name: Seq<char>,
    other: Seq<char>,
)
    ensures
        names_field(name) && names_field(other) && text::lowercase(name) == text::lowercase(other)
            ==> field_values(fields, name) == field_values(fields, other),
        !names_field(name) ==> field_values(fields, name).len() == 0,
        names_field(name) && fields.contains_key(text::lowercase(name)) ==> field_values(
            fields,
            name,
        ) == fields[text::lowercase(name)],
        names_field(name) && !fields.contains_key(text::lowercase(name)) ==> field_values(
            fields,
            name,
        ).len() == 0,
{
}

} // verus!
