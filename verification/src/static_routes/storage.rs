//! How a page and its response metadata are stored, and read back as one.
//!
//! A page is a file, and its metadata another one: a version, the digest of the
//! page, the status and the header fields. The digest ties the two together, so
//! that a pair that was only half replaced is never served.

use crate::fs_boundary::IoKind;
use crate::http::{self, HeaderName, HeaderValue};
use crate::response::ResponseParts;
use crate::static_routes::names;
use crate::text::{self, copy_bytes, same_bytes, same_text};
use sha2::Digest;
use vstd::prelude::*;

verus! {

type Fields = Map<Seq<char>, Seq<Seq<u8>>>;

// ---------------------------------------------------------------------------
// Digests
// ---------------------------------------------------------------------------
/// The SHA-256 digest of bytes.
pub uninterp spec fn sha256(bytes: Seq<u8>) -> Seq<u8>;

/// `sha2::Sha256::digest`: thirty-two bytes that depend on the input alone.
#[verifier::external_body]
fn sha256_digest(bytes: &[u8]) -> (digest: Vec<u8>)
    ensures
        digest@ == sha256(bytes@),
        digest@.len() == 32,
{
    sha2::Sha256::digest(bytes).to_vec()
}

/// A hexadecimal digit in lower case.
pub open spec fn hex_digit(n: int) -> char {
    if n < 10 {
        (0x30 + n) as char
    } else {
        (0x57 + n) as char
    }
}

/// Bytes in hexadecimal, two digits each.
pub open spec fn hex(bytes: Seq<u8>) -> Seq<char>
    decreases bytes.len(),
{
    if bytes.len() == 0 {
        Seq::empty()
    } else {
        hex(bytes.drop_last()).push(hex_digit(bytes.last() as int / 16)).push(
            hex_digit(bytes.last() as int % 16),
        )
    }
}

fn write_hex_digit(n: u8) -> (c: char)
    requires
        n < 16,
    ensures
        c == hex_digit(n as int),
{
    if n < 10 {
        (0x30 + n) as char
    } else {
        (0x57 + n) as char
    }
}

/// Writes bytes in hexadecimal.
pub fn to_hex(bytes: &[u8]) -> (text: String)
    ensures
        text@ == hex(bytes@),
{
    let mut text = String::new();
    let mut i: usize = 0;
    proof {
        assert(bytes@.take(0) =~= Seq::empty());
    }
    while i < bytes.len()
        invariant
            i <= bytes.len(),
            text@ == hex(bytes@.take(i as int)),
        decreases bytes.len() - i,
    {
        let b = bytes[i];
        proof {
            assert(bytes@.take(i + 1).drop_last() =~= bytes@.take(i as int));
            assert(bytes@.take(i + 1).last() == b);
        }
        text.push(write_hex_digit(b / 16));
        text.push(write_hex_digit(b % 16));
        i = i + 1;
    }
    proof {
        assert(bytes@.take(i as int) =~= bytes@);
    }
    text
}

/// The digest of a page, as the metadata records it.
pub fn body_digest(page: &[u8]) -> (digest: String)
    ensures
        digest@ == hex(sha256(page@)),
{
    to_hex(sha256_digest(page).as_slice())
}

// ---------------------------------------------------------------------------
// Names
// ---------------------------------------------------------------------------
/// The directory, beside the pages of a directory, that holds their metadata.
pub const METADATA_DIRECTORY: &'static str = ".leptos-static-metadata";

/// The lock, in each directory, under which a pair is replaced.
pub const PUBLICATION_LOCK: &'static str = ".leptos-static-publish.lock";

/// The metadata of a page, relative to the directory of the page. It has the name of
/// the page, so that both names are looked up alike.
pub fn metadata_name(name: &[u8]) -> (path: Vec<u8>)
    ensures
        path@ == vstd::utf8::encode_utf8(METADATA_DIRECTORY@) + seq![0x2fu8] + name@,
{
    let mut path = copy_bytes(METADATA_DIRECTORY.as_bytes());
    path.push(0x2f);
    let mut tail = copy_bytes(name);
    path.append(&mut tail);
    proof {
        assert(path@ =~= vstd::utf8::encode_utf8(METADATA_DIRECTORY@) + seq![0x2fu8] + name@);
    }
    path
}

/// How many preparation locks a directory has.
pub const LOCK_BUCKETS: u8 = 32;

/// A preparation lock of a directory.
pub open spec fn bucket_lock(bucket: u8) -> Seq<char> {
    ".leptos-static-"@ + seq![
        hex_digit(bucket as int / 10),
        hex_digit(bucket as int % 10),
    ] + ".lock"@
}

/// The name of a preparation lock. Its number has two digits.
pub fn bucket_lock_name(bucket: u8) -> (name: String)
    requires
        bucket < LOCK_BUCKETS,
    ensures
        name@ == bucket_lock(bucket),
{
    let mut name = text::copy_text(".leptos-static-");
    name.push(write_hex_digit(bucket / 10));
    name.push(write_hex_digit(bucket % 10));
    name.append(".lock");
    proof {
        assert(name@ =~= bucket_lock(bucket));
    }
    name
}

/// The preparation lock of a page.
pub fn lock_name(name: &[u8]) -> (lock: String)
    ensures
        lock@ == bucket_lock(sha256(name@)[0] % 32),
{
    let digest = sha256_digest(name);
    bucket_lock_name(digest[0] % LOCK_BUCKETS)
}

/// The name of a temporary file: a digest of what it will replace, the process, and a
/// number.
pub open spec fn temporary(digest: Seq<char>, process: u32, number: u64) -> Seq<char> {
    ".leptos-"@ + digest + ".tmp."@ + text::decimal(process as nat) + "."@ + text::decimal(
        number as nat,
    )
}

/// The name of a temporary file for a page. It has a bounded length however long the
/// name of the page is.
pub fn temporary_name(name: &[u8], process: u32, number: u64) -> (temp: String)
    ensures
        temp@ == temporary(hex(sha256(name@)), process, number),
{
    let mut temp = text::concat3(".leptos-", body_digest(name).as_str(), ".tmp.");
    temp.append(text::format_decimal(process as u64).as_str());
    temp.append(".");
    temp.append(text::format_decimal(number).as_str());
    proof {
        assert(temp@ =~= temporary(hex(sha256(name@)), process, number));
    }
    temp
}

// ---------------------------------------------------------------------------
// Metadata
// ---------------------------------------------------------------------------
/// The metadata of a page.
pub struct StoredResponse {
    pub version: u8,
    pub digest: String,
    pub status: Option<u16>,
    pub headers: Vec<(String, Vec<u8>)>,
}

/// The version, the digest, the status and the fields of metadata.
pub type StoredView = (u8, Seq<char>, Option<u16>, Seq<(Seq<char>, Seq<u8>)>);

/// The names and values of several fields.
pub open spec fn field_views(headers: Seq<(String, Vec<u8>)>) -> Seq<(Seq<char>, Seq<u8>)> {
    headers.map_values(|field: (String, Vec<u8>)| (field.0@, field.1@))
}

impl View for StoredResponse {
    type V = StoredView;

    open spec fn view(&self) -> StoredView {
        (self.version, self.digest@, self.status, field_views(self.headers@))
    }
}

pub open spec fn optional_stored(stored: Option<StoredResponse>) -> Option<StoredView> {
    match stored {
        Some(stored) => Some(stored@),
        None => None,
    }
}

/// The bytes that metadata are written as.
pub uninterp spec fn stored_bytes(
    version: u8,
    digest: Seq<char>,
    status: Option<u16>,
    headers: Seq<(Seq<char>, Seq<u8>)>,
) -> Seq<u8>;

/// The metadata that bytes are read as.
pub uninterp spec fn stored_value(bytes: Seq<u8>) -> Option<StoredView>;

/// `serde_json::to_vec` of a tuple of numbers, texts and lists, which never fails:
/// bytes that depend on the tuple alone, and that [`decode_stored`] reads back.
#[verifier::external_body]
fn encode_stored(stored: &StoredResponse) -> (bytes: Vec<u8>)
    ensures
        bytes@ == stored_bytes(stored@.0, stored@.1, stored@.2, stored@.3),
        stored_value(bytes@) == Some(stored@),
{
    serde_json::to_vec(&(stored.version, &stored.digest, stored.status, &stored.headers)).unwrap()
}

/// `serde_json::from_slice` to a tuple of numbers, texts and lists: a parse that
/// depends on the bytes alone.
#[verifier::external_body]
fn decode_stored(bytes: &[u8]) -> (stored: Option<StoredResponse>)
    ensures
        optional_stored(stored) == stored_value(bytes@),
{
    let (version, digest, status, headers) = serde_json::from_slice(bytes).ok()?;
    Some(StoredResponse { version, digest, status, headers })
}

/// The fields that a list of fields amounts to, none if one of them is not legal.
pub open spec fn replayed(headers: Seq<(Seq<char>, Seq<u8>)>) -> Option<Fields>
    decreases headers.len(),
{
    if headers.len() == 0 {
        Some(Map::empty())
    } else {
        match replayed(headers.drop_last()) {
            None => None,
            Some(fields) => {
                let (name, value) = headers.last();
                if http::names_field(name) && http::valid_value(value) {
                    Some(
                        fields.insert(
                            text::lowercase(name),
                            http::field_values(fields, name).push(value),
                        ),
                    )
                } else {
                    None
                }
            },
        }
    }
}

/// Why a stored pair cannot be served.
#[derive(Clone, Copy, Debug, PartialEq, Eq, Structural)]
pub enum SnapshotError {
    /// The metadata cannot be read.
    Unreadable,
    /// The metadata are of another version, or belong to another page.
    Inconsistent,
    /// The status is none.
    BadStatus,
    /// A field is not legal.
    BadHeader,
}

/// The response that metadata describe for a page with a digest.
pub open spec fn snapshot(stored: Option<StoredView>, digest: Seq<char>) -> Result<
    (Option<u16>, Fields),
    SnapshotError,
> {
    match stored {
        None => Err(SnapshotError::Unreadable),
        Some((version, recorded, status, headers)) => if version != 1 || recorded != digest {
            Err(SnapshotError::Inconsistent)
        } else if status is Some && !http::valid_status(status->0) {
            Err(SnapshotError::BadStatus)
        } else {
            match replayed(headers) {
                Some(fields) => Ok((status, fields)),
                None => Err(SnapshotError::BadHeader),
            }
        },
    }
}

/// What a response override says.
pub open spec fn parts_view(parts: ResponseParts) -> (Option<u16>, Fields) {
    (parts.status, http::header_fields(parts.headers))
}

pub open spec fn snapshot_view(r: Result<ResponseParts, SnapshotError>) -> Result<
    (Option<u16>, Fields),
    SnapshotError,
> {
    match r {
        Ok(parts) => Ok(parts_view(parts)),
        Err(error) => Err(error),
    }
}

proof fn lemma_replay_prefix(headers: Seq<(Seq<char>, Seq<u8>)>, n: int)
    requires
        0 <= n <= headers.len(),
        replayed(headers.take(n)) is None,
    ensures
        replayed(headers) is None,
    decreases headers.len(),
{
    if n == headers.len() {
        assert(headers.take(n) =~= headers);
    } else {
        assert(headers.drop_last().take(n) =~= headers.take(n));
        lemma_replay_prefix(headers.drop_last(), n);
    }
}

/// The response that metadata describe, if they belong to the page with a digest.
pub fn parse_static_snapshot(given: Option<StoredResponse>, digest: &str) -> (r: Result<
    ResponseParts,
    SnapshotError,
>)
    ensures
        snapshot_view(r) == snapshot(optional_stored(given), digest@),
{
    let ghost whole = optional_stored(given);
    let stored = match given {
        None => {
            return Err(SnapshotError::Unreadable);
        },
        Some(stored) => stored,
    };
    if stored.version != 1 || !same_text(stored.digest.as_str(), digest) {
        return Err(SnapshotError::Inconsistent);
    }
    if let Some(status) = stored.status {
        if !(100 <= status && status <= 999) {
            return Err(SnapshotError::BadStatus);
        }
    }
    let ghost list = field_views(stored.headers@);
    let mut parts = ResponseParts::new();
    parts.status = stored.status;
    let mut i: usize = 0;
    proof {
        assert(list.take(0) =~= Seq::empty());
        assert(http::header_fields(parts.headers) =~= Map::empty());
    }
    while i < stored.headers.len()
        invariant
            i <= stored.headers.len(),
            list == field_views(stored.headers@),
            list.len() == stored.headers@.len(),
            replayed(list.take(i as int)) == Some(http::header_fields(parts.headers)),
            parts.status == stored.status,
            whole == Some(stored@),
            whole == optional_stored(given),
            stored.version == 1,
            stored.digest@ == digest@,
            stored.status is Some ==> http::valid_status(stored.status->0),
        decreases stored.headers.len() - i,
    {
        let field = &stored.headers[i];
        proof {
            assert(list[i as int] == (field.0@, field.1@));
            assert(list.take(i + 1).drop_last() =~= list.take(i as int));
            assert(list.take(i + 1).last() == list[i as int]);
        }
        match HeaderName::from_text(field.0.as_str()) {
            None => {
                proof {
                    lemma_replay_prefix(list, i + 1);
                }
                return Err(SnapshotError::BadHeader);
            },
            Some(name) => match HeaderValue::from_bytes(field.1.as_slice()) {
                None => {
                    proof {
                        lemma_replay_prefix(list, i + 1);
                    }
                    return Err(SnapshotError::BadHeader);
                },
                Some(value) => {
                    let ghost before = http::header_fields(parts.headers);
                    http::append_field(&mut parts.headers, name.as_str(), &value);
                    proof {
                        assert(text::lowercase(name@) == name@);
                    }
                },
            },
        }
        i = i + 1;
    }
    proof {
        assert(list.take(i as int) =~= list);
    }
    Ok(parts)
}

/// The response that the bytes of metadata describe for the bytes of a page.
pub open spec fn read_pair(metadata: Seq<u8>, page: Seq<u8>) -> Result<
    (Option<u16>, Fields),
    SnapshotError,
> {
    snapshot(stored_value(metadata), hex(sha256(page)))
}

/// Reads a stored pair: the response, if the metadata belong to the page.
pub fn read_snapshot(metadata: &[u8], page: &[u8]) -> (r: Result<ResponseParts, SnapshotError>)
    ensures
        snapshot_view(r) == read_pair(metadata@, page@),
{
    let digest = body_digest(page);
    parse_static_snapshot(decode_stored(metadata), digest.as_str())
}

/// What is known of the response of a stored page. A page without metadata was stored
/// without, and nothing is known of its response.
pub open spec fn stored_page(metadata: Option<Seq<u8>>, page: Seq<u8>) -> Result<
    Option<(Option<u16>, Fields)>,
    SnapshotError,
> {
    match metadata {
        None => Ok(None),
        Some(bytes) => match read_pair(bytes, page) {
            Ok(parts) => Ok(Some(parts)),
            Err(error) => Err(error),
        },
    }
}

pub open spec fn stored_page_view(r: Result<Option<ResponseParts>, SnapshotError>) -> Result<
    Option<(Option<u16>, Fields)>,
    SnapshotError,
> {
    match r {
        Ok(Some(parts)) => Ok(Some(parts_view(parts))),
        Ok(None) => Ok(None),
        Err(error) => Err(error),
    }
}

/// Reads a stored page: the response that its metadata describe, none exactly where it
/// has no metadata.
pub fn read_stored_page(metadata: Option<&[u8]>, page: &[u8]) -> (r: Result<
    Option<ResponseParts>,
    SnapshotError,
>)
    ensures
        stored_page_view(r) == stored_page(
            match metadata {
                Some(bytes) => Some(bytes@),
                None => None,
            },
            page@,
        ),
        r matches Ok(None) <==> metadata is None,
{
    match metadata {
        None => Ok(None),
        Some(bytes) => match read_snapshot(bytes, page) {
            Ok(parts) => Ok(Some(parts)),
            Err(error) => Err(error),
        },
    }
}

/// The fields under some of their names.
pub open spec fn restricted(fields: Fields, names: Seq<Seq<char>>) -> Fields {
    Map::new(
        |name: Seq<char>| names.contains(name) && fields.contains_key(name),
        |name: Seq<char>| fields[name],
    )
}

/// The fields that a list of names in normal form and values amounts to.
pub open spec fn gathered(headers: Seq<(Seq<char>, Seq<u8>)>) -> Fields
    decreases headers.len(),
{
    if headers.len() == 0 {
        Map::empty()
    } else {
        let fields = gathered(headers.drop_last());
        let (name, value) = headers.last();
        fields.insert(name, http::stored_values(fields, name).push(value))
    }
}

/// Whether every name in a list is in normal form, and every value is legal.
pub open spec fn legal_list(headers: Seq<(Seq<char>, Seq<u8>)>) -> bool {
    forall|i: int|
        0 <= i < headers.len() ==> http::valid_name((#[trigger] headers[i]).0)
            && http::valid_value(headers[i].1)
}

/// Whether every name of some fields is a token. A name from HTTP/2 need not be one.
pub open spec fn token_names(fields: Fields) -> bool {
    forall|name: Seq<char>| #[trigger] fields.contains_key(name) ==> http::is_token_text(name)
}

/// A list is read as what it amounts to, unless one of its names is no token.
proof fn lemma_replayed(headers: Seq<(Seq<char>, Seq<u8>)>)
    requires
        legal_list(headers),
    ensures
        replayed(headers) == (if token_names(gathered(headers)) {
            Some(gathered(headers))
        } else {
            None
        }),
    decreases headers.len(),
{
    if headers.len() > 0 {
        let front = headers.drop_last();
        let (name, value) = headers.last();
        assert forall|i: int| 0 <= i < front.len() implies http::valid_name(
            (#[trigger] front[i]).0,
        ) && http::valid_value(front[i].1) by {
            assert(front[i] == headers[i]);
        }
        lemma_replayed(front);
        let fields = gathered(front);
        let all = gathered(headers);
        assert(headers[headers.len() - 1] == (name, value));
        assert(all.contains_key(name));
        if !token_names(fields) {
            let other: Seq<char> = choose|other: Seq<char>| #[trigger]
                fields.contains_key(other) && !http::is_token_text(other);
            assert(all.contains_key(other));
        }
    } else {
        assert(gathered(headers) =~= Map::empty());
    }
}

/// Lists the fields of a response, name by name.
fn list_fields(parts: &ResponseParts) -> (list: Vec<(String, Vec<u8>)>)
    ensures
        gathered(field_views(list@)) == http::header_fields(parts.headers),
        legal_list(field_views(list@)),
{
    let names = http::header_names(&parts.headers);
    let ghost fields = http::header_fields(parts.headers);
    let ghost texts = http::name_texts(names@);
    let mut list: Vec<(String, Vec<u8>)> = Vec::new();
    let mut i: usize = 0;
    proof {
        assert(texts.len() == names@.len());
        assert(field_views(list@) =~= Seq::empty());
        assert(restricted(fields, texts.take(0)) =~= Map::empty());
    }
    while i < names.len()
        invariant
            i <= names.len(),
            fields == http::header_fields(parts.headers),
            texts == http::name_texts(names@),
            texts.len() == names@.len(),
            texts.no_duplicates(),
            fields.dom().subset_of(texts.to_set()),
            gathered(field_views(list@)) == restricted(fields, texts.take(i as int)),
            legal_list(field_views(list@)),
        decreases names.len() - i,
    {
        let values = http::named_values(&parts.headers, &names[i]);
        let name = names[i].as_str();
        let ghost before = restricted(fields, texts.take(i as int));
        let ghost own = http::stored_values(fields, name@);
        proof {
            assert(texts[i as int] == name@);
            assert(!texts.take(i as int).contains(name@)) by {
                if texts.take(i as int).contains(name@) {
                    let k: int = choose|k: int|
                        0 <= k < i && texts.take(i as int)[k] == name@;
                    assert(texts[k] == texts[i as int]);
                }
            }
            assert(!before.contains_key(name@));
            assert(http::value_bytes(values@).len() == values@.len());
            assert(own.take(0) =~= Seq::empty());
        }
        let mut k: usize = 0;
        while k < values.len()
            invariant
                k <= values.len(),
                http::valid_name(name@),
                !before.contains_key(name@),
                http::value_bytes(values@) == own,
                own.len() == values@.len(),
                legal_list(field_views(list@)),
                k == 0 ==> gathered(field_views(list@)) == before,
                k > 0 ==> gathered(field_views(list@)) == before.insert(
                    name@,
                    own.take(k as int),
                ),
            decreases values.len() - k,
        {
            let value = values[k].as_bytes();
            let ghost sofar = field_views(list@);
            list.push((text::copy_text(name), copy_bytes(value)));
            proof {
                let now = field_views(list@);
                assert(http::value_bytes(values@)[k as int] == values@[k as int]@);
                assert(now =~= sofar.push((name@, value@)));
                assert(now.drop_last() =~= sofar);
                assert(own.take(k + 1) =~= own.take(k as int).push(value@));
                if k == 0 {
                    assert(Seq::<Seq<u8>>::empty().push(value@) =~= own.take(1));
                    assert(gathered(now) == before.insert(name@, own.take(1)));
                } else {
                    assert(before.insert(name@, own.take(k as int)).insert(
                        name@,
                        own.take(k + 1),
                    ) =~= before.insert(name@, own.take(k + 1)));
                }
            }
            k = k + 1;
        }
        proof {
            assert(own.take(k as int) =~= own);
            let after = restricted(fields, texts.take(i + 1));
            assert(texts.take(i + 1) =~= texts.take(i as int).push(name@));
            assert forall|n: Seq<char>| #[trigger] texts.take(i + 1).contains(n) <==> texts.take(
                i as int,
            ).contains(n) || n == name@ by {
                let more = texts.take(i + 1);
                let less = texts.take(i as int);
                if more.contains(n) {
                    let j: int = choose|j: int| 0 <= j < more.len() && more[j] == n;
                    if j < i {
                        assert(less[j] == n);
                    }
                }
                if less.contains(n) {
                    let j: int = choose|j: int| 0 <= j < less.len() && less[j] == n;
                    assert(more[j] == n);
                }
                if n == name@ {
                    assert(more[i as int] == n);
                }
            }
            assert(after =~= (if fields.contains_key(name@) {
                before.insert(name@, own)
            } else {
                before
            }));
        }
        i = i + 1;
    }
    proof {
        assert(texts.take(i as int) =~= texts);
        assert forall|n: Seq<char>| #[trigger] fields.contains_key(n) implies texts.contains(n) by {
            assert(fields.dom().contains(n));
        }
        assert(restricted(fields, texts) =~= fields);
    }
    list
}

/// The metadata of a page, as they are written. Reading them back with the page gives
/// the response that they were made from. Metadata with a name that is no token are
/// written too, and refused when they are read.
pub fn write_static_route(parts: &ResponseParts, page: &[u8]) -> (metadata: Vec<u8>)
    requires
        parts.status is Some ==> http::valid_status(parts.status->0),
    ensures
        read_pair(metadata@, page@) == (if token_names(http::header_fields(parts.headers)) {
            Ok::<(Option<u16>, Fields), SnapshotError>(parts_view(*parts))
        } else {
            Err::<(Option<u16>, Fields), SnapshotError>(SnapshotError::BadHeader)
        }),
        exists|headers: Seq<(Seq<char>, Seq<u8>)>|
            metadata@ == #[trigger] stored_bytes(1, hex(sha256(page@)), parts.status, headers)
                && gathered(headers) == http::header_fields(parts.headers) && legal_list(headers),
{
    let headers = list_fields(parts);
    proof {
        lemma_replayed(field_views(headers@));
    }
    let stored = StoredResponse { version: 1, digest: body_digest(page), status: parts.status, headers };
    encode_stored(&stored)
}

// ---------------------------------------------------------------------------
// Finding the metadata
// ---------------------------------------------------------------------------
/// A failure that shows damage: what should be there is missing.
pub fn damaged_metadata_error(kind: IoKind) -> (damage: IoKind)
    ensures
        damage == damaged(kind),
{
    match kind {
        IoKind::NotFound => IoKind::InvalidData,
        other => other,
    }
}

pub open spec fn damaged(kind: IoKind) -> IoKind {
    if kind == IoKind::NotFound {
        IoKind::InvalidData
    } else {
        kind
    }
}

/// What an entry is, without following links.
#[derive(Clone, Copy, Debug, PartialEq, Eq, Structural)]
pub enum EntryType {
    Directory,
    Link,
    Other,
}

/// What happened last while metadata were looked for.
#[derive(Clone, Copy, Debug, PartialEq, Eq)]
pub enum MetadataEvent {
    /// Opening the metadata of the page.
    Opened(Result<(), IoKind>),
    /// Whether the entry exists in itself, after opening it failed in a way that
    /// means that something is missing.
    LookedUp(IoKind, bool),
    /// What the metadata directory is in itself, after that.
    Directory(IoKind, Result<EntryType, IoKind>),
    /// Whether the metadata directory leads to a directory, after it was a link.
    Resolved(IoKind, Result<bool, IoKind>),
}

/// What to do next.
#[derive(Clone, Copy, Debug, PartialEq, Eq, Structural)]
pub enum MetadataAction {
    /// The metadata are open.
    Present,
    /// The page has none: it was stored without.
    Absent,
    LookUp(IoKind),
    InspectDirectory(IoKind),
    ResolveDirectory(IoKind),
    Fail(IoKind),
}

/// What comes next. Metadata that exist but cannot be read are damaged; they never
/// count as absent.
pub open spec fn metadata_action(event: MetadataEvent) -> MetadataAction {
    match event {
        MetadataEvent::Opened(Ok(())) => MetadataAction::Present,
        MetadataEvent::Opened(Err(kind)) => if kind == IoKind::NotFound || kind
            == IoKind::NotADirectory {
            MetadataAction::LookUp(kind)
        } else {
            MetadataAction::Fail(kind)
        },
        MetadataEvent::LookedUp(kind, exists) => if exists {
            MetadataAction::Fail(damaged(kind))
        } else {
            MetadataAction::InspectDirectory(kind)
        },
        MetadataEvent::Directory(_, Err(IoKind::NotFound)) => MetadataAction::Absent,
        MetadataEvent::Directory(_, Err(kind)) => MetadataAction::Fail(kind),
        MetadataEvent::Directory(_, Ok(EntryType::Directory)) => MetadataAction::Absent,
        MetadataEvent::Directory(kind, Ok(EntryType::Link)) => MetadataAction::ResolveDirectory(
            kind,
        ),
        MetadataEvent::Directory(kind, Ok(EntryType::Other)) => MetadataAction::Fail(damaged(kind)),
        MetadataEvent::Resolved(_, Ok(true)) => MetadataAction::Absent,
        MetadataEvent::Resolved(kind, Ok(false)) => MetadataAction::Fail(damaged(kind)),
        MetadataEvent::Resolved(_, Err(kind)) => MetadataAction::Fail(damaged(kind)),
    }
}

/// Decides the next step in the search for metadata.
pub fn open_static_metadata(event: MetadataEvent) -> (action: MetadataAction)
    ensures
        action == metadata_action(event),
{
    match event {
        MetadataEvent::Opened(Ok(())) => MetadataAction::Present,
        MetadataEvent::Opened(Err(kind)) => match kind {
            IoKind::NotFound => MetadataAction::LookUp(kind),
            IoKind::NotADirectory => MetadataAction::LookUp(kind),
            _ => MetadataAction::Fail(kind),
        },
        MetadataEvent::LookedUp(kind, exists) => if exists {
            MetadataAction::Fail(damaged_metadata_error(kind))
        } else {
            MetadataAction::InspectDirectory(kind)
        },
        MetadataEvent::Directory(_, Err(IoKind::NotFound)) => MetadataAction::Absent,
        MetadataEvent::Directory(_, Err(kind)) => MetadataAction::Fail(kind),
        MetadataEvent::Directory(_, Ok(EntryType::Directory)) => MetadataAction::Absent,
        MetadataEvent::Directory(kind, Ok(EntryType::Link)) => MetadataAction::ResolveDirectory(
            kind,
        ),
        MetadataEvent::Directory(kind, Ok(EntryType::Other)) => MetadataAction::Fail(
            damaged_metadata_error(kind),
        ),
        MetadataEvent::Resolved(_, Ok(true)) => MetadataAction::Absent,
        MetadataEvent::Resolved(kind, Ok(false)) => MetadataAction::Fail(
            damaged_metadata_error(kind),
        ),
        MetadataEvent::Resolved(_, Err(kind)) => MetadataAction::Fail(damaged_metadata_error(kind)),
    }
}

// ---------------------------------------------------------------------------
// Reading a pair
// ---------------------------------------------------------------------------
/// What happened last while a pair was read.
#[derive(Clone, Copy, Debug, PartialEq, Eq)]
pub enum ReadEvent {
    /// Taking the publication lock.
    Locked(Result<(), IoKind>),
    /// Opening the page, and then its metadata, under the lock or without: whether
    /// there are metadata.
    Pinned { lockless: bool, metadata: Result<bool, IoKind> },
    /// Taking the lock after a read without it.
    Relocked(Result<(), IoKind>),
    /// Opening both once more, under the lock.
    Repinned,
}

/// What to do next.
#[derive(Clone, Copy, Debug, PartialEq, Eq, Structural)]
pub enum ReadAction {
    /// Open the page, and then its metadata.
    Pin { lockless: bool },
    /// Judge what was opened, and then try to take the lock once more.
    Relock,
    /// Open both once more, under the lock.
    Repin,
    /// What was opened last is the answer, a failure included.
    Finish,
    Fail(IoKind),
}

/// What comes next. Without a lock there may be no publisher, or the first one may be
/// at work: a pair is then looked at again under its lock. A page without metadata is
/// not, since publishers write the metadata first.
pub open spec fn read_action(event: ReadEvent) -> ReadAction {
    match event {
        ReadEvent::Locked(Ok(())) => ReadAction::Pin { lockless: false },
        ReadEvent::Locked(Err(IoKind::NotFound)) => ReadAction::Pin { lockless: true },
        ReadEvent::Locked(Err(kind)) => ReadAction::Fail(kind),
        ReadEvent::Pinned { lockless, metadata } => if lockless && metadata != Ok::<
            bool,
            IoKind,
        >(false) {
            ReadAction::Relock
        } else {
            ReadAction::Finish
        },
        ReadEvent::Relocked(Ok(())) => ReadAction::Repin,
        ReadEvent::Relocked(Err(IoKind::NotFound)) => ReadAction::Finish,
        ReadEvent::Relocked(Err(kind)) => ReadAction::Fail(kind),
        ReadEvent::Repinned => ReadAction::Finish,
    }
}

/// Decides the next step of reading a pair.
pub fn read_paired_static_file(event: ReadEvent) -> (action: ReadAction)
    ensures
        action == read_action(event),
{
    match event {
        ReadEvent::Locked(Ok(())) => ReadAction::Pin { lockless: false },
        ReadEvent::Locked(Err(IoKind::NotFound)) => ReadAction::Pin { lockless: true },
        ReadEvent::Locked(Err(kind)) => ReadAction::Fail(kind),
        ReadEvent::Pinned { lockless, metadata } => {
            let legacy = match metadata {
                Ok(present) => !present,
                Err(_) => false,
            };
            if lockless && !legacy {
                ReadAction::Relock
            } else {
                ReadAction::Finish
            }
        },
        ReadEvent::Relocked(Ok(())) => ReadAction::Repin,
        ReadEvent::Relocked(Err(IoKind::NotFound)) => ReadAction::Finish,
        ReadEvent::Relocked(Err(kind)) => ReadAction::Fail(kind),
        ReadEvent::Repinned => ReadAction::Finish,
    }
}

// ---------------------------------------------------------------------------
// Publishing a pair
// ---------------------------------------------------------------------------
/// The steps of publishing a pair. A step that fails ends the publication; temporary
/// files that were not renamed yet are then removed.
#[derive(Clone, Copy, Debug, PartialEq, Eq, Structural)]
pub enum PublishStep {
    /// Take the preparation lock of the page.
    LockPreparation,
    /// Write the page to a temporary file.
    PreparePage,
    /// Write the metadata to a temporary file.
    PrepareMetadata,
    /// Take the publication lock of the directory.
    LockPublication,
    CreateMetadataDirectory,
    /// Rename the temporary metadata to their place.
    PublishMetadata,
    SyncMetadataDirectory,
    /// Rename the temporary page to its place.
    PublishPage,
    SyncDirectory,
}

/// The step behind `done` of them.
pub open spec fn publish_step(done: int) -> Option<PublishStep> {
    if done == 0 {
        Some(PublishStep::LockPreparation)
    } else if done == 1 {
        Some(PublishStep::PreparePage)
    } else if done == 2 {
        Some(PublishStep::PrepareMetadata)
    } else if done == 3 {
        Some(PublishStep::LockPublication)
    } else if done == 4 {
        Some(PublishStep::CreateMetadataDirectory)
    } else if done == 5 {
        Some(PublishStep::PublishMetadata)
    } else if done == 6 {
        Some(PublishStep::SyncMetadataDirectory)
    } else if done == 7 {
        Some(PublishStep::PublishPage)
    } else if done == 8 {
        Some(PublishStep::SyncDirectory)
    } else {
        None
    }
}

/// The step of a publication behind `done` of them.
pub fn next_publish_step(done: usize) -> (step: Option<PublishStep>)
    ensures
        step == publish_step(done as int),
{
    match done {
        0 => Some(PublishStep::LockPreparation),
        1 => Some(PublishStep::PreparePage),
        2 => Some(PublishStep::PrepareMetadata),
        3 => Some(PublishStep::LockPublication),
        4 => Some(PublishStep::CreateMetadataDirectory),
        5 => Some(PublishStep::PublishMetadata),
        6 => Some(PublishStep::SyncMetadataDirectory),
        7 => Some(PublishStep::PublishPage),
        8 => Some(PublishStep::SyncDirectory),
        _ => None,
    }
}

// ---------------------------------------------------------------------------
// Laws
// ---------------------------------------------------------------------------
/// Metadata are never taken for those of another page: where the digests differ, the
/// pair is refused.
pub proof fn mixed_pairs_are_refused(stored: StoredView, page: Seq<u8>)
    requires
        stored.1 != hex(sha256(page)),
    ensures
        snapshot(Some(stored), hex(sha256(page))) is Err,
{
}

/// Every page is published behind its metadata, under the publication lock.
pub proof fn metadata_precede_the_page(page: int)
    requires
        publish_step(page) == Some(PublishStep::PublishPage),
    ensures
        exists|lock: int, metadata: int|
            #![trigger publish_step(lock), publish_step(metadata)]
            0 <= lock < metadata < page && publish_step(lock) == Some(PublishStep::LockPublication)
                && publish_step(metadata) == Some(PublishStep::PublishMetadata),
{
    assert(publish_step(3) == Some(PublishStep::LockPublication));
    assert(publish_step(5) == Some(PublishStep::PublishMetadata));
}

/// Both files are complete before either replaces what was there.
pub proof fn files_are_prepared_first(step: int, prepared: int)
    requires
        publish_step(step) == Some(PublishStep::PublishPage) || publish_step(step) == Some(
            PublishStep::PublishMetadata,
        ),
        publish_step(prepared) == Some(PublishStep::PreparePage) || publish_step(prepared) == Some(
            PublishStep::PrepareMetadata,
        ),
    ensures
        prepared < step,
{
}

/// Metadata count as absent only where neither they nor anything but a directory in
/// the place of their directory was found.
pub proof fn damaged_metadata_are_not_absent(event: MetadataEvent, kind: IoKind)
    ensures
        metadata_action(event) == MetadataAction::Absent ==> match event {
            MetadataEvent::Directory(_, Err(missing)) => missing == IoKind::NotFound,
            MetadataEvent::Directory(_, Ok(entry)) => entry == EntryType::Directory,
            MetadataEvent::Resolved(_, directory) => directory == Ok::<bool, IoKind>(true),
            _ => false,
        },
        metadata_action(MetadataEvent::LookedUp(kind, true)) is Fail,
        metadata_action(
            MetadataEvent::Directory(kind, Ok::<EntryType, IoKind>(EntryType::Other)),
        ) is Fail,
        metadata_action(MetadataEvent::Resolved(kind, Ok::<bool, IoKind>(false))) is Fail,
{
}

/// A pair with metadata that was read without a lock is always checked against a
/// publisher that may have begun meanwhile.
pub proof fn lockless_pairs_are_checked_again(metadata: Result<bool, IoKind>)
    requires
        metadata != Ok::<bool, IoKind>(false),
    ensures
        read_action(ReadEvent::Pinned { lockless: true, metadata }) == ReadAction::Relock,
{
}

proof fn lemma_hex_length(bytes: Seq<u8>)
    ensures
        hex(bytes).len() == 2 * bytes.len(),
    decreases bytes.len(),
{
    if bytes.len() > 0 {
        lemma_hex_length(bytes.drop_last());
    }
}

proof fn lemma_hex_visible(bytes: Seq<u8>)
    ensures
        http::visible_text(hex(bytes)),
    decreases bytes.len(),
{
    if bytes.len() > 0 {
        let rest = hex(bytes.drop_last());
        lemma_hex_visible(bytes.drop_last());
        let all = hex(bytes);
        assert forall|i: int| 0 <= i < all.len() implies ' ' <= #[trigger] all[i] <= '~' by {
            if i < rest.len() {
                assert(all[i] == rest[i]);
            }
        }
    }
}

/// Temporary names are told from the names of pages: whoever lists a directory knows
/// that they go away.
pub proof fn temporary_names_are_transient(digest: Seq<u8>, process: u32, number: u64)
    ensures
        names::is_transient(
            vstd::utf8::encode_utf8(temporary(hex(digest), process, number)),
        ),
        temporary(hex(digest), process, number).len() <= 2 * digest.len() + 2 * 20 + 14,
{
    let name = temporary(hex(digest), process, number);
    let first = text::decimal(process as nat);
    let second = text::decimal(number as nat);
    reveal_strlit(".leptos-");
    reveal_strlit(".tmp.");
    reveal_strlit(".");
    lemma_hex_visible(digest);
    lemma_hex_length(digest);
    text::lemma_decimal_roundtrip(process as nat);
    text::lemma_decimal_roundtrip(number as nat);
    reveal_with_fuel(ten_to, 21);
    lemma_decimal_length(process as nat, 20);
    lemma_decimal_length(number as nat, 20);
    let at: int = 8 + hex(digest).len() as int;
    assert(vstd::utf8::is_ascii_chars(name)) by {
        assert forall|i: int| 0 <= i < name.len() implies '\0' <= #[trigger] name[i]
            <= '\u{7f}' by {
            let b: int = at + 5 + first.len() as int;
            if i < 8 {
                assert(name[i] == ".leptos-"@[i]);
            } else if i < at {
                assert(name[i] == hex(digest)[i - 8]);
            } else if i < at + 5 {
                assert(name[i] == ".tmp."@[i - at]);
            } else if i < b {
                assert(name[i] == first[i - at - 5]);
                assert(text::is_digit(first[i - at - 5]));
            } else if i == b {
                assert(name[i] == "."@[0]);
            } else {
                assert(name[i] == second[i - b - 1]);
                assert(text::is_digit(second[i - b - 1]));
            }
        }
    }
    vstd::utf8::is_ascii_chars_encode_utf8(name);
    let bytes = vstd::utf8::encode_utf8(name);
    assert(bytes.subrange(0, 8) =~= names::temp_prefix()) by {
        assert forall|i: int| 0 <= i < 8 implies bytes[i] == ".leptos-"@[i] as u8 by {
            assert(name[i] == ".leptos-"@[i]);
        }
    }
    assert(bytes.subrange(at, at + 5) =~= names::temp_mark()) by {
        assert forall|i: int| 0 <= i < 5 implies bytes[at + i] == ".tmp."@[i] as u8 by {
            assert(name[at + i] == ".tmp."@[i]);
        }
    }
    assert(names::stands_at(bytes, names::temp_mark(), at));
}

spec fn ten_to(digits: nat) -> nat
    decreases digits,
{
    if digits == 0 {
        1
    } else {
        10 * ten_to((digits - 1) as nat)
    }
}

proof fn lemma_decimal_length(n: nat, digits: nat)
    requires
        digits > 0,
        n < ten_to(digits),
    ensures
        text::decimal(n).len() <= digits,
    decreases digits,
{
    if n >= 10 {
        reveal_with_fuel(ten_to, 2);
        lemma_decimal_length(n / 10, (digits - 1) as nat);
    }
}

/// Temporary files of one process with different numbers have different names.
pub proof fn temporary_names_are_distinct(digest: Seq<char>, process: u32, a: u64, b: u64)
    requires
        temporary(digest, process, a) == temporary(digest, process, b),
    ensures
        a == b,
{
    let head = ".leptos-"@ + digest + ".tmp."@ + text::decimal(process as nat) + "."@;
    let x = text::decimal(a as nat);
    let y = text::decimal(b as nat);
    assert(temporary(digest, process, a) == head + x);
    assert(temporary(digest, process, b) == head + y);
    assert((head + x).skip(head.len() as int) =~= x);
    assert((head + y).skip(head.len() as int) =~= y);
    text::lemma_decimal_roundtrip(a as nat);
    text::lemma_decimal_roundtrip(b as nat);
}

/// What a hexadecimal digit in lower case stands for.
pub open spec fn digit_read(c: char) -> int {
    if '0' <= c && c <= '9' {
        c as int - '0' as int
    } else {
        c as int - 'a' as int + 10
    }
}

/// Each byte is written as two hexadecimal digits in lower case, in order, from which it
/// is read again.
pub proof fn hexadecimal_is_read_back(bytes: Seq<u8>, i: int)
    requires
        0 <= i < bytes.len(),
    ensures
        hex(bytes).len() == 2 * bytes.len(),
        16 * digit_read(hex(bytes)[2 * i]) + digit_read(hex(bytes)[2 * i + 1]) == bytes[i],
        0 <= digit_read(hex(bytes)[2 * i]) < 16,
        0 <= digit_read(hex(bytes)[2 * i + 1]) < 16,
    decreases bytes.len(),
{
    lemma_hex_length(bytes);
    let front = bytes.drop_last();
    lemma_hex_length(front);
    if i < front.len() {
        hexadecimal_is_read_back(front, i);
        assert(hex(bytes)[2 * i] == hex(front)[2 * i]);
        assert(hex(bytes)[2 * i + 1] == hex(front)[2 * i + 1]);
    } else {
        let b = bytes.last() as int;
        assert(hex(bytes)[2 * i] == hex_digit(b / 16));
        assert(hex(bytes)[2 * i + 1] == hex_digit(b % 16));
        lemma_digit_read(b / 16);
        lemma_digit_read(b % 16);
    }
}

proof fn lemma_digit_read(n: int)
    requires
        0 <= n < 16,
    ensures
        digit_read(hex_digit(n)) == n,
{
    if n < 10 {
        assert((0x30 + n) as char as int == 0x30 + n);
    } else {
        assert((0x57 + n) as char as int == 0x57 + n);
    }
}

/// Different bytes are written differently.
pub proof fn hexadecimal_tells_bytes_apart(a: Seq<u8>, b: Seq<u8>)
    requires
        hex(a) == hex(b),
    ensures
        a == b,
{
    lemma_hex_length(a);
    lemma_hex_length(b);
    assert forall|i: int| 0 <= i < a.len() implies a[i] == b[i] by {
        hexadecimal_is_read_back(a, i);
        hexadecimal_is_read_back(b, i);
    }
    assert(a =~= b);
}

/// The name of a preparation lock holds its number in two decimal digits, so that no two
/// locks share a name.
pub proof fn locks_have_names_of_their_own(bucket: u8, other: u8)
    requires
        bucket < LOCK_BUCKETS,
        other < LOCK_BUCKETS,
    ensures
        bucket_lock(bucket).len() == ".leptos-static-"@.len() + 2 + ".lock"@.len(),
        ".leptos-static-"@.is_prefix_of(bucket_lock(bucket)),
        text::decimal_value(
            bucket_lock(bucket).subrange(
                ".leptos-static-"@.len() as int,
                ".leptos-static-"@.len() as int + 2,
            ),
        ) == bucket,
        bucket_lock(bucket) == bucket_lock(other) ==> bucket == other,
{
    let front = ".leptos-static-"@;
    let n: int = front.len() as int;
    lemma_bucket_digits(bucket);
    lemma_bucket_digits(other);
    assert(bucket_lock(bucket).subrange(0, n) =~= front);
    let own = bucket_lock(bucket).subrange(n, n + 2);
    assert(own =~= seq![hex_digit(bucket as int / 10), hex_digit(bucket as int % 10)]);
    let foreign = bucket_lock(other).subrange(n, n + 2);
    assert(foreign =~= seq![hex_digit(other as int / 10), hex_digit(other as int % 10)]);
}

proof fn lemma_bucket_digits(bucket: u8)
    requires
        bucket < 100,
    ensures
        text::decimal_value(
            seq![hex_digit(bucket as int / 10), hex_digit(bucket as int % 10)],
        ) == bucket,
{
    let (a, b) = (hex_digit(bucket as int / 10), hex_digit(bucket as int % 10));
    let digits = seq![a, b];
    reveal_with_fuel(text::decimal_value, 3);
    assert(digits.drop_last() =~= seq![a]);
    assert(seq![a].drop_last() =~= Seq::<char>::empty());
    assert((0x30 + bucket as int / 10) as char as int == 0x30 + bucket as int / 10);
    assert((0x30 + bucket as int % 10) as char as int == 0x30 + bucket as int % 10);
}

/// The values under one name, in whatever case it is written, in the order of a list.
pub open spec fn values_listed(headers: Seq<(Seq<char>, Seq<u8>)>, name: Seq<char>) -> Seq<Seq<u8>> {
    headers.filter(|field: (Seq<char>, Seq<u8>)| text::lowercase(field.0) == name).map_values(
        |field: (Seq<char>, Seq<u8>)| field.1,
    )
}

/// A list of fields is read exactly if each of them is legal. Under each name it then has
/// all the values that are listed for it, in order, and no others.
pub proof fn listed_fields_are_read_in_order(
    headers: Seq<(Seq<char>, Seq<u8>)>,
    name: Seq<char>,
)
    ensures
        replayed(headers) is Some <==> forall|i: int|
            0 <= i < headers.len() ==> http::names_field((#[trigger] headers[i]).0)
                && http::valid_value(headers[i].1),
        replayed(headers) matches Some(fields) ==> (fields.contains_key(name) <==> values_listed(
            headers,
            name,
        ).len() > 0) && (fields.contains_key(name) ==> fields[name] == values_listed(headers, name)),
    decreases headers.len(),
{
    reveal(Seq::filter);
    let named = |field: (Seq<char>, Seq<u8>)| text::lowercase(field.0) == name;
    let value_of = |field: (Seq<char>, Seq<u8>)| field.1;
    if headers.len() == 0 {
        assert(values_listed(headers, name).len() == 0);
    } else {
        let front = headers.drop_last();
        let last = headers.last();
        listed_fields_are_read_in_order(front, name);
        assert(headers[headers.len() - 1] == last);
        if replayed(headers) is Some {
            assert forall|i: int| 0 <= i < headers.len() implies http::names_field(
                (#[trigger] headers[i]).0,
            ) && http::valid_value(headers[i].1) by {
                if i < front.len() {
                    assert(front[i] == headers[i]);
                }
            }
        } else if forall|i: int|
            0 <= i < headers.len() ==> http::names_field((#[trigger] headers[i]).0)
                && http::valid_value(headers[i].1) {
            assert forall|i: int| 0 <= i < front.len() implies http::names_field(
                (#[trigger] front[i]).0,
            ) && http::valid_value(front[i].1) by {
                assert(front[i] == headers[i]);
            }
        }
        let before = front.filter(named);
        if named(last) {
            assert(headers.filter(named) == before.push(last));
            assert(values_listed(headers, name) =~= values_listed(front, name).push(last.1));
        } else {
            assert(values_listed(headers, name) =~= values_listed(front, name));
        }
        if replayed(headers) is Some && named(last) {
            let fields = replayed(front)->0;
            if !fields.contains_key(name) {
                assert(values_listed(front, name) =~= Seq::<Seq<u8>>::empty());
            }
            assert(http::field_values(fields, last.0) =~= values_listed(front, name));
        }
    }
}

/// Metadata describe the response of a page exactly if they can be read, are of this
/// version, record the digest of the page, and hold a legal status and legal fields.
pub proof fn snapshots_are_checked(stored: Option<StoredView>, digest: Seq<char>)
    ensures
        match stored {
            None => snapshot(stored, digest) == Err::<(Option<u16>, Fields), SnapshotError>(
                SnapshotError::Unreadable,
            ),
            Some((version, recorded, status, headers)) => {
                let legal_status = status is None || 100 <= status->0 <= 999;
                &&& snapshot(stored, digest) is Ok <==> version == 1 && recorded == digest
                    && legal_status && replayed(headers) is Some
                &&& snapshot(stored, digest) is Ok ==> snapshot(stored, digest) == Ok::<
                    (Option<u16>, Fields),
                    SnapshotError,
                >((status, replayed(headers)->0))
                &&& version != 1 || recorded != digest ==> snapshot(stored, digest) == Err::<
                    (Option<u16>, Fields),
                    SnapshotError,
                >(SnapshotError::Inconsistent)
                &&& version == 1 && recorded == digest && !legal_status ==> snapshot(stored, digest)
                    == Err::<(Option<u16>, Fields), SnapshotError>(SnapshotError::BadStatus)
            },
        },
{
}

/// A page without metadata is served as it is; one with metadata only under them.
pub proof fn metadata_decide_where_there_are_any(metadata: Seq<u8>, page: Seq<u8>)
    ensures
        stored_page(None, page) == Ok::<Option<(Option<u16>, Fields)>, SnapshotError>(None),
        stored_page(Some(metadata), page) != Ok::<Option<(Option<u16>, Fields)>, SnapshotError>(
            None,
        ),
        stored_page(Some(metadata), page) is Ok <==> read_pair(metadata, page) is Ok,
        read_pair(metadata, page) matches Ok(parts) ==> stored_page(Some(metadata), page) == Ok::<
            Option<(Option<u16>, Fields)>,
            SnapshotError,
        >(Some(parts)),
{
}

/// Metadata that open are there. Where opening them shows that something is missing, it
/// is looked for, first the entry and then its directory; any other failure stands. A
/// failure never says that something is missing: that would be damage.
pub proof fn missing_metadata_are_looked_for(event: MetadataEvent, kind: IoKind)
    ensures
        metadata_action(event) == MetadataAction::Present <==> (event matches MetadataEvent::Opened(
            Ok(_),
        )),
        kind == IoKind::NotFound || kind == IoKind::NotADirectory ==> metadata_action(
            MetadataEvent::Opened(Err::<(), IoKind>(kind)),
        ) == MetadataAction::LookUp(kind),
        kind != IoKind::NotFound && kind != IoKind::NotADirectory ==> metadata_action(
            MetadataEvent::Opened(Err::<(), IoKind>(kind)),
        ) == MetadataAction::Fail(kind),
        metadata_action(MetadataEvent::LookedUp(kind, false)) == MetadataAction::InspectDirectory(
            kind,
        ),
        metadata_action(
            MetadataEvent::Directory(kind, Ok::<EntryType, IoKind>(EntryType::Link)),
        ) == MetadataAction::ResolveDirectory(kind),
        metadata_action(
            MetadataEvent::Directory(kind, Ok::<EntryType, IoKind>(EntryType::Directory)),
        ) == MetadataAction::Absent,
        metadata_action(
            MetadataEvent::Directory(kind, Err::<EntryType, IoKind>(IoKind::NotFound)),
        ) == MetadataAction::Absent,
        metadata_action(MetadataEvent::Resolved(kind, Ok::<bool, IoKind>(true)))
            == MetadataAction::Absent,
        metadata_action(event) != MetadataAction::Fail(IoKind::NotFound),
        kind != IoKind::NotFound ==> metadata_action(MetadataEvent::LookedUp(kind, true))
            == MetadataAction::Fail(kind),
        metadata_action(MetadataEvent::LookedUp(IoKind::NotFound, true)) == MetadataAction::Fail(
            IoKind::InvalidData,
        ),
{
}

/// A pair is read under its lock, and without one only where there is none. What was
/// opened under the lock, or has no metadata, is the answer. A lock that cannot be taken
/// is a failure.
pub proof fn pairs_are_read_under_their_lock(metadata: Result<bool, IoKind>, kind: IoKind)
    ensures
        read_action(ReadEvent::Locked(Ok::<(), IoKind>(()))) == (ReadAction::Pin {
            lockless: false,
        }),
        read_action(ReadEvent::Locked(Err::<(), IoKind>(kind))) == (if kind == IoKind::NotFound {
            ReadAction::Pin { lockless: true }
        } else {
            ReadAction::Fail(kind)
        }),
        read_action(ReadEvent::Pinned { lockless: false, metadata }) == ReadAction::Finish,
        read_action(
            ReadEvent::Pinned { lockless: true, metadata: Ok::<bool, IoKind>(false) },
        ) == ReadAction::Finish,
        read_action(ReadEvent::Relocked(Ok::<(), IoKind>(()))) == ReadAction::Repin,
        read_action(ReadEvent::Relocked(Err::<(), IoKind>(kind))) == (if kind == IoKind::NotFound {
            ReadAction::Finish
        } else {
            ReadAction::Fail(kind)
        }),
        read_action(ReadEvent::Repinned) == ReadAction::Finish,
{
}

/// A publication goes through every step once. It begins with its preparation lock; the
/// metadata are renamed into a directory that was created, and are on disk before the
/// page is renamed; at the end the directory is on disk.
pub proof fn publications_go_through_every_step(a: int, b: int, step: PublishStep)
    ensures
        publish_step(a) is Some <==> 0 <= a < 9,
        publish_step(a) is Some && publish_step(a) == publish_step(b) ==> a == b,
        exists|done: int| 0 <= done < 9 && #[trigger] publish_step(done) == Some(step),
        publish_step(0) == Some(PublishStep::LockPreparation),
        publish_step(8) == Some(PublishStep::SyncDirectory),
        publish_step(a) == Some(PublishStep::CreateMetadataDirectory) && publish_step(b) == Some(
            PublishStep::PublishMetadata,
        ) ==> a < b,
        publish_step(a) == Some(PublishStep::PublishMetadata) ==> publish_step(a + 1) == Some(
            PublishStep::SyncMetadataDirectory,
        ),
        publish_step(a) == Some(PublishStep::SyncMetadataDirectory) && publish_step(b) == Some(
            PublishStep::PublishPage,
        ) ==> a < b,
        publish_step(a) == Some(PublishStep::LockPublication) && publish_step(b) == Some(
            PublishStep::CreateMetadataDirectory,
        ) ==> a < b,
{
    assert(publish_step(0) == Some(PublishStep::LockPreparation));
    assert(publish_step(1) == Some(PublishStep::PreparePage));
    assert(publish_step(2) == Some(PublishStep::PrepareMetadata));
    assert(publish_step(3) == Some(PublishStep::LockPublication));
    assert(publish_step(4) == Some(PublishStep::CreateMetadataDirectory));
    assert(publish_step(5) == Some(PublishStep::PublishMetadata));
    assert(publish_step(6) == Some(PublishStep::SyncMetadataDirectory));
    assert(publish_step(7) == Some(PublishStep::PublishPage));
    assert(publish_step(8) == Some(PublishStep::SyncDirectory));
}

/// What was written with a page is read back with it: the status and every field, where the
/// names of the fields are tokens.
pub proof fn written_metadata_are_read_back(
    parts: &ResponseParts,
    page: &[u8],
    metadata: Vec<u8>,
    stored: &[u8],
    r: Result<ResponseParts, SnapshotError>,
)
    requires
        parts.status is Some ==> http::valid_status(parts.status->0),
        token_names(http::header_fields(parts.headers)),
        call_ensures(write_static_route, (parts, page), metadata),
        stored@ == metadata@,
        call_ensures(read_snapshot, (stored, page), r),
    ensures
        r matches Ok(read) && read.status == parts.status && http::header_fields(read.headers)
            == http::header_fields(parts.headers),
{
}

/// Two pages share a preparation lock exactly if their digests fall into the same of the
/// 32 buckets.
pub proof fn pages_share_locks_by_digest(a: &[u8], b: &[u8], first: String, second: String)
    requires
        call_ensures(lock_name, (a,), first),
        call_ensures(lock_name, (b,), second),
    ensures
        first@ == second@ <==> sha256(a@)[0] % 32 == sha256(b@)[0] % 32,
{
    locks_have_names_of_their_own(sha256(a@)[0] % 32, sha256(b@)[0] % 32);
}

/// Temporary files are told apart by process and number.
pub proof fn temporary_files_do_not_collide(
    name: &[u8],
    p: u32,
    q: u32,
    a: u64,
    b: u64,
    first: String,
    second: String,
)
    requires
        call_ensures(temporary_name, (name, p, a), first),
        call_ensures(temporary_name, (name, q, b), second),
        first@ == second@,
    ensures
        p == q,
        a == b,
{
    let digest = hex(sha256(name@));
    let front = ".leptos-"@ + digest + ".tmp."@;
    let (x, y) = (text::decimal(p as nat), text::decimal(q as nat));
    let (u, v) = (text::decimal(a as nat), text::decimal(b as nat));
    reveal_strlit(".");
    assert("."@ =~= seq!['.']);
    text::lemma_decimal_roundtrip(p as nat);
    text::lemma_decimal_roundtrip(q as nat);
    text::lemma_decimal_roundtrip(a as nat);
    text::lemma_decimal_roundtrip(b as nat);
    let one = x + seq!['.'] + u;
    let other = y + seq!['.'] + v;
    assert(first@ =~= front + one);
    assert(second@ =~= front + other);
    assert((front + one).skip(front.len() as int) =~= one);
    assert((front + other).skip(front.len() as int) =~= other);
    assert(one[x.len() as int] == '.');
    assert(other[y.len() as int] == '.');
    if x.len() < y.len() {
        assert(other[x.len() as int] == y[x.len() as int]);
        assert(text::is_digit(y[x.len() as int]));
    }
    if y.len() < x.len() {
        assert(one[y.len() as int] == x[y.len() as int]);
        assert(text::is_digit(x[y.len() as int]));
    }
    assert(one.take(x.len() as int) =~= x);
    assert(other.take(y.len() as int) =~= y);
    assert(one.skip(x.len() as int + 1) =~= u);
    assert(other.skip(y.len() as int + 1) =~= v);
}

/// The metadata of pages with different names have different files, each named like its
/// page below the metadata directory.
pub proof fn metadata_are_named_like_their_page(
    a: &[u8],
    b: &[u8],
    first: Vec<u8>,
    second: Vec<u8>,
)
    requires
        call_ensures(metadata_name, (a,), first),
        call_ensures(metadata_name, (b,), second),
    ensures
        first@ == second@ ==> a@ == b@,
        first@.len() > a@.len(),
        first@.skip(first@.len() - a@.len()) == a@,
        first@[first@.len() - a@.len() - 1] == 0x2f,
{
    assert(first@.skip(first@.len() - a@.len()) =~= a@);
    assert(second@.skip(second@.len() - b@.len()) =~= b@);
}

} // verus!
