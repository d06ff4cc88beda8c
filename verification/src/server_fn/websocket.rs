//! The opening handshake of a server-function WebSocket (RFC 6455).

use crate::config::LeptosServerFnConfig;
use crate::http::{self, HeaderValue};
use crate::text::{self, eq_ignore_ascii_case, split_on, trim, unpad};
use base64::Engine;
use ntex::http::HeaderMap;
use vstd::prelude::*;

verus! {

// ---------------------------------------------------------------------------
// Handshake
// ---------------------------------------------------------------------------
/// Why an upgrade request was refused.
#[derive(Clone, Copy, Debug, PartialEq, Eq, Structural)]
pub enum HandshakeError {
    /// The request does not use GET.
    GetMethodRequired,
    /// The request does not ask for the websocket protocol over HTTP/1.1, or its
    /// subprotocol offers are malformed.
    NoWebsocketUpgrade,
    /// The `Connection` field does not ask for an upgrade.
    NoConnectionUpgrade,
    /// The version field is missing.
    NoVersionHeader,
    /// The version field is repeated or names an unknown version.
    UnsupportedVersion,
    /// The key field is missing, repeated, or does not hold sixteen bytes.
    BadWebsocketKey,
}

/// The part of a request that the handshake reads.
pub struct UpgradeRequest<'a> {
    /// Whether the method is GET.
    pub get: bool,
    /// Whether the request uses HTTP/1.1.
    pub http_11: bool,
    pub headers: &'a HeaderMap,
}

/// Whether a comma-separated list names `token`, ignoring case.
pub open spec fn lists_token(line: Seq<char>, token: Seq<char>) -> bool {
    exists|k: int|
        0 <= k < text::split(line, ',').len() && text::same_ignoring_case(
            text::trimmed(#[trigger] text::split(line, ',')[k]),
            token,
        )
}

/// Whether a readable field line names `token`.
pub open spec fn line_lists_token(line: Seq<u8>, token: Seq<char>) -> bool {
    http::value_text(line) matches Some(s) && lists_token(s, token)
}

/// Whether one of the field lines names `token`.
pub open spec fn names_token(lines: Seq<Seq<u8>>, token: Seq<char>) -> bool {
    exists|i: int| 0 <= i < lines.len() && line_lists_token(#[trigger] lines[i], token)
}

fn list_has_token(line: &str, token: &str) -> (found: bool)
    ensures
        found == lists_token(line@, token@),
{
    let parts = split_on(line, ',');
    let mut i: usize = 0;
    while i < parts.len()
        invariant
            i <= parts.len(),
            text::views(parts@) == text::split(line@, ','),
            forall|k: int|
                0 <= k < i ==> !text::same_ignoring_case(
                    text::trimmed(#[trigger] text::split(line@, ',')[k]),
                    token@,
                ),
        decreases parts.len() - i,
    {
        proof {
            assert(text::views(parts@)[i as int] == parts@[i as int]@);
        }
        if eq_ignore_ascii_case(trim(parts[i]), token) {
            return true;
        }
        i = i + 1;
    }
    proof {
        assert(text::views(parts@).len() == parts@.len());
    }
    false
}

/// Whether one of the values of a field names `token` in its comma-separated
/// list, ignoring case. Values that are no text name nothing.
pub fn has_token(headers: &HeaderMap, name: &str, token: &str) -> (found: bool)
    ensures
        found == names_token(http::values_of(*headers, name@), token@),
{
    let values = http::header_values(headers, name);
    let ghost lines = http::values_of(*headers, name@);
    let mut i: usize = 0;
    while i < values.len()
        invariant
            i <= values.len(),
            lines == http::values_of(*headers, name@),
            http::value_bytes(values@) == lines,
            forall|k: int| 0 <= k < i ==> !line_lists_token(#[trigger] lines[k], token@),
        decreases values.len() - i,
    {
        proof {
            assert(http::value_bytes(values@)[i as int] == values@[i as int]@);
        }
        if let Some(line) = values[i].to_text() {
            if list_has_token(line.as_str(), token) {
                proof {
                    assert(line_lists_token(lines[i as int], token@));
                }
                return true;
            }
        }
        i = i + 1;
    }
    proof {
        assert(http::value_bytes(values@).len() == values@.len());
    }
    false
}

/// A non-empty text of HTTP token characters.
pub fn is_token(value: &str) -> (b: bool)
    ensures
        b == http::is_token_text(value@),
{
    let chars = text::chars_of(value);
    let mut i: usize = 0;
    while i < chars.len()
        invariant
            chars@ == value@,
            i <= chars.len(),
            forall|j: int| 0 <= j < i ==> http::token_char(#[trigger] value@[j]),
        decreases chars.len() - i,
    {
        if !http::is_token_char(chars[i]) {
            proof {
                assert(!http::token_char(value@[i as int]));
            }
            return false;
        }
        i = i + 1;
    }
    chars.len() > 0
}

/// The non-empty members of `parts` without their padding, in order.
pub open spec fn members(parts: Seq<Seq<char>>) -> Seq<Seq<char>>
    decreases parts.len(),
{
    if parts.len() == 0 {
        Seq::empty()
    } else {
        let rest = members(parts.drop_last());
        let last = text::unpadded(parts.last());
        if last.len() == 0 {
            rest
        } else {
            rest.push(last)
        }
    }
}

/// The subprotocols offered by all lines together, in order; none if a line is
/// no text.
pub open spec fn offered_members(lines: Seq<Seq<u8>>) -> Option<Seq<Seq<char>>>
    decreases lines.len(),
{
    if lines.len() == 0 {
        Some(Seq::empty())
    } else {
        match (offered_members(lines.drop_last()), http::value_text(lines.last())) {
            (Some(rest), Some(line)) => Some(rest + members(text::split(line, ','))),
            _ => None,
        }
    }
}

/// Every offer is a token, and none is made twice.
pub open spec fn proper_offers(offers: Seq<Seq<char>>) -> bool {
    &&& forall|i: int| 0 <= i < offers.len() ==> http::is_token_text(#[trigger] offers[i])
    &&& offers.no_duplicates()
}

/// The subprotocols that the lines offer. Absent lines offer nothing; present
/// lines offer at least one, each of them a token that occurs once.
pub open spec fn subprotocol_offers(lines: Seq<Seq<u8>>) -> Option<Seq<Seq<char>>> {
    match offered_members(lines) {
        Some(offers) => if proper_offers(offers) && (lines.len() > 0 ==> offers.len() > 0) {
            Some(offers)
        } else {
            None
        },
        None => None,
    }
}

proof fn lemma_offered_prefix(lines: Seq<Seq<u8>>, n: int)
    requires
        0 <= n <= lines.len(),
        offered_members(lines) is Some,
    ensures
        offered_members(lines.take(n)) is Some,
        (offered_members(lines.take(n))->0).is_prefix_of(offered_members(lines)->0),
    decreases lines.len(),
{
    if n == lines.len() {
        assert(lines.take(n) =~= lines);
    } else {
        lemma_offered_prefix(lines.drop_last(), n);
        assert(lines.drop_last().take(n) =~= lines.take(n));
        let a = offered_members(lines.take(n))->0;
        let b = offered_members(lines.drop_last())->0;
        let c = offered_members(lines)->0;
        assert(a.is_prefix_of(b));
        assert(b.is_prefix_of(c));
        assert(a =~= c.subrange(0, a.len() as int));
    }
}

proof fn lemma_members_prefix(parts: Seq<Seq<char>>, n: int)
    requires
        0 <= n <= parts.len(),
    ensures
        members(parts.take(n)).is_prefix_of(members(parts)),
    decreases parts.len(),
{
    if n == parts.len() {
        assert(parts.take(n) =~= parts);
    } else {
        lemma_members_prefix(parts.drop_last(), n);
        assert(parts.drop_last().take(n) =~= parts.take(n));
        let a = members(parts.take(n));
        let b = members(parts.drop_last());
        let c = members(parts);
        assert(b.is_prefix_of(c));
        assert(a =~= c.subrange(0, a.len() as int));
    }
}

/// A prefix of proper offers is proper.
proof fn lemma_improper_prefix(offers: Seq<Seq<char>>, all: Seq<Seq<char>>)
    requires
        offers.is_prefix_of(all),
        !proper_offers(offers),
    ensures
        !proper_offers(all),
{
    if proper_offers(all) {
        assert forall|i: int| 0 <= i < offers.len() implies http::is_token_text(
            #[trigger] offers[i],
        ) by {
            assert(offers[i] == all[i]);
        }
        assert forall|i: int, j: int|
            0 <= i < offers.len() && 0 <= j < offers.len() && i != j implies offers[i]
            != offers[j] by {
            assert(offers[i] == all[i]);
            assert(offers[j] == all[j]);
        }
        assert(offers.no_duplicates());
    }
}

fn contains_text(texts: &Vec<String>, wanted: &str) -> (found: bool)
    ensures
        found == text::strings(texts@).contains(wanted@),
{
    let mut i: usize = 0;
    while i < texts.len()
        invariant
            i <= texts.len(),
            forall|j: int| 0 <= j < i ==> text::strings(texts@)[j] != wanted@,
        decreases texts.len() - i,
    {
        proof {
            assert(text::strings(texts@)[i as int] == texts@[i as int]@);
        }
        if text::same_text(texts[i].as_str(), wanted) {
            return true;
        }
        i = i + 1;
    }
    false
}

/// Adds the offers of one line; fails if one of them is improper.
fn collect_offers(line: &str, offers: &mut Vec<String>) -> (proper: bool)
    requires
        proper_offers(text::strings(old(offers)@)),
    ensures
        proper == proper_offers(text::strings(old(offers)@) + members(text::split(line@, ','))),
        proper ==> text::strings(final(offers)@) == text::strings(old(offers)@) + members(
            text::split(line@, ','),
        ),
{
    let parts = split_on(line, ',');
    let ghost before = text::strings(offers@);
    let ghost pieces = text::split(line@, ',');
    let mut i: usize = 0;
    proof {
        assert(text::strings(offers@) =~= before + members(pieces.take(0)));
    }
    while i < parts.len()
        invariant
            i <= parts.len(),
            before == text::strings(old(offers)@),
            pieces == text::split(line@, ','),
            text::views(parts@) == pieces,
            text::strings(offers@) == before + members(pieces.take(i as int)),
            proper_offers(text::strings(offers@)),
        decreases parts.len() - i,
    {
        let protocol = unpad(parts[i]);
        let ghost sofar = members(pieces.take(i as int));
        let ghost grown = members(pieces.take(i + 1));
        proof {
            assert(text::views(parts@)[i as int] == parts@[i as int]@);
            assert(pieces.take(i + 1).drop_last() =~= pieces.take(i as int));
            assert(pieces.take(i + 1).last() == parts@[i as int]@);
            lemma_members_prefix(pieces, i + 1);
        }
        if protocol.unicode_len() > 0 {
            let token = is_token(protocol);
            let repeated = contains_text(offers, protocol);
            if !token || repeated {
                proof {
                    let now = before + grown;
                    assert(now =~= text::strings(offers@).push(protocol@));
                    let at: int = text::strings(offers@).len() as int;
                    assert(now[at] == protocol@);
                    if repeated {
                        let j: int = choose|j: int|
                            0 <= j < at && text::strings(offers@)[j] == protocol@;
                        assert(now[j] == protocol@);
                    }
                    assert(!proper_offers(now));
                    assert(now =~= (before + members(pieces)).subrange(0, now.len() as int));
                    lemma_improper_prefix(now, before + members(pieces));
                }
                return false;
            }
            let ghost old_offers = text::strings(offers@);
            offers.push(protocol.to_owned());
            proof {
                let now = text::strings(offers@);
                assert(now =~= old_offers.push(protocol@));
                assert(now =~= before + grown);
                assert forall|a: int, b: int|
                    0 <= a < now.len() && 0 <= b < now.len() && a != b implies now[a]
                    != now[b] by {
                    if a == old_offers.len() {
                        assert(old_offers.contains(now[b]) || b == a);
                    } else if b == old_offers.len() {
                        assert(old_offers.contains(now[a]));
                    }
                }
                assert(now.no_duplicates());
                assert(proper_offers(now));
            }
        }
        i = i + 1;
    }
    proof {
        assert(text::views(parts@).len() == parts@.len());
        assert(pieces.take(i as int) =~= pieces);
    }
    true
}

/// The outcome of the opening handshake: the offered subprotocols, or the first
/// rule that the request breaks. `key_length` is how many bytes the key decodes to.
pub open spec fn handshake_by_key(
    get: bool,
    http_11: bool,
    headers: HeaderMap,
    key_length: Option<usize>,
) -> Result<Seq<Seq<char>>, HandshakeError> {
    let versions = http::values_of(headers, "sec-websocket-version"@);
    let keys = http::values_of(headers, "sec-websocket-key"@);
    if !get {
        Err(HandshakeError::GetMethodRequired)
    } else if !http_11 || !names_token(http::values_of(headers, "upgrade"@), "websocket"@) {
        Err(HandshakeError::NoWebsocketUpgrade)
    } else if !names_token(http::values_of(headers, "connection"@), "upgrade"@) {
        Err(HandshakeError::NoConnectionUpgrade)
    } else if versions.len() == 0 {
        Err(HandshakeError::NoVersionHeader)
    } else if versions.len() > 1 || !known_version(versions[0]) {
        Err(HandshakeError::UnsupportedVersion)
    } else if keys.len() != 1 || key_length != Some(16usize) {
        Err(HandshakeError::BadWebsocketKey)
    } else {
        match subprotocol_offers(http::values_of(headers, "sec-websocket-protocol"@)) {
            Some(offers) => Ok(offers),
            None => Err(HandshakeError::NoWebsocketUpgrade),
        }
    }
}

/// How many bytes the only key of a request decodes to.
pub open spec fn key_length(headers: HeaderMap) -> Option<usize> {
    let keys = http::values_of(headers, "sec-websocket-key"@);
    if keys.len() == 1 {
        decoded_length(keys[0], 16)
    } else {
        None
    }
}

/// The outcome of the opening handshake.
pub open spec fn handshake(get: bool, http_11: bool, headers: HeaderMap) -> Result<
    Seq<Seq<char>>,
    HandshakeError,
> {
    handshake_by_key(get, http_11, headers, key_length(headers))
}

/// The protocol versions that are spoken: 13, 8 and 7.
pub open spec fn known_version(version: Seq<u8>) -> bool {
    version == seq![0x31u8, 0x33u8] || version == seq![0x38u8] || version == seq![0x37u8]
}

/// How many bytes the standard base64 decoding of `input` writes into a buffer of
/// `room` bytes, where it succeeds.
pub uninterp spec fn decoded_length(input: Seq<u8>, room: usize) -> Option<usize>;

/// `base64`'s standard engine, `Engine::decode_slice`: the number of bytes that it
/// decodes into a buffer of `room` bytes, or a failure, by the input and the room
/// alone. The room is small, since the buffer is made for the call.
#[verifier::external_body]
fn decode_length(input: &[u8], room: usize) -> (written: Option<usize>)
    requires
        room <= 1024,
    ensures
        written == decoded_length(input@, room),
{
    let mut buffer = vec![0u8; room];
    base64::engine::general_purpose::STANDARD.decode_slice(input, &mut buffer).ok()
}

/// The result of a handshake with the texts of the offers.
pub open spec fn handshake_view(r: Result<Vec<String>, HandshakeError>) -> Result<
    Seq<Seq<char>>,
    HandshakeError,
> {
    match r {
        Ok(offers) => Ok(text::strings(offers@)),
        Err(error) => Err(error),
    }
}

/// Validates the opening handshake and returns the offered subprotocols.
pub fn verify_handshake(request: &UpgradeRequest<'_>) -> (r: Result<Vec<String>, HandshakeError>)
    ensures
        handshake_view(r) == handshake(request.get, request.http_11, *request.headers),
{
    let keys = http::header_values(request.headers, "sec-websocket-key");
    proof {
        assert(http::value_bytes(keys@).len() == keys@.len());
    }
    let mut decoded: Option<usize> = None;
    if keys.len() == 1 {
        proof {
            assert(http::value_bytes(keys@)[0] == keys@[0]@);
        }
        decoded = decode_length(keys[0].as_bytes(), 16);
    }
    check_handshake(request, decoded)
}

/// Validates the opening handshake, given how many bytes the key decodes to.
pub fn check_handshake(request: &UpgradeRequest<'_>, key_length: Option<usize>) -> (r: Result<
    Vec<String>,
    HandshakeError,
>)
    ensures
        handshake_view(r) == handshake_by_key(
            request.get,
            request.http_11,
            *request.headers,
            key_length,
        ),
{
    let headers = request.headers;
    if !request.get {
        return Err(HandshakeError::GetMethodRequired);
    }
    if !request.http_11 || !has_token(headers, "upgrade", "websocket") {
        return Err(HandshakeError::NoWebsocketUpgrade);
    }
    if !has_token(headers, "connection", "upgrade") {
        return Err(HandshakeError::NoConnectionUpgrade);
    }
    let versions = http::header_values(headers, "sec-websocket-version");
    proof {
        assert(http::value_bytes(versions@).len() == versions@.len());
    }
    if versions.len() == 0 {
        return Err(HandshakeError::NoVersionHeader);
    }
    proof {
        assert(http::value_bytes(versions@)[0] == versions@[0]@);
    }
    if versions.len() > 1 || !is_known_version(&versions[0]) {
        return Err(HandshakeError::UnsupportedVersion);
    }
    let keys = http::header_values(headers, "sec-websocket-key");
    proof {
        assert(http::value_bytes(keys@).len() == keys@.len());
    }
    if keys.len() != 1 {
        return Err(HandshakeError::BadWebsocketKey);
    }
    match key_length {
        Some(16) => {},
        _ => {
            return Err(HandshakeError::BadWebsocketKey);
        },
    }
    let fields = http::header_values(headers, "sec-websocket-protocol");
    let ghost lines = http::values_of(*headers, "sec-websocket-protocol"@);
    let mut offers: Vec<String> = Vec::new();
    let mut i: usize = 0;
    proof {
        assert(http::value_bytes(fields@).len() == fields@.len());
        assert(lines.take(0) =~= Seq::empty());
        assert(text::strings(offers@) =~= Seq::empty());
    }
    while i < fields.len()
        invariant
            i <= fields.len(),
            http::value_bytes(fields@) == lines,
            lines.len() == fields@.len(),
            offered_members(lines.take(i as int)) == Some(text::strings(offers@)),
            proper_offers(text::strings(offers@)),
            handshake_by_key(
                request.get,
                request.http_11,
                *request.headers,
                key_length,
            ) == (match subprotocol_offers(lines) {
                Some(offers) => Ok::<Seq<Seq<char>>, HandshakeError>(offers),
                None => Err::<Seq<Seq<char>>, HandshakeError>(HandshakeError::NoWebsocketUpgrade),
            }),
        decreases fields.len() - i,
    {
        proof {
            assert(http::value_bytes(fields@)[i as int] == fields@[i as int]@);
            assert(lines.take(i + 1).drop_last() =~= lines.take(i as int));
            assert(lines.take(i + 1).last() == lines[i as int]);
            if offered_members(lines) is Some {
                lemma_offered_prefix(lines, i + 1);
            }
        }
        match fields[i].to_text() {
            None => {
                return Err(HandshakeError::NoWebsocketUpgrade);
            },
            Some(line) => {
                if !collect_offers(line.as_str(), &mut offers) {
                    proof {
                        if offered_members(lines) is Some {
                            lemma_improper_prefix(
                                offered_members(lines.take(i + 1))->0,
                                offered_members(lines)->0,
                            );
                        }
                    }
                    return Err(HandshakeError::NoWebsocketUpgrade);
                }
            },
        }
        i = i + 1;
    }
    proof {
        assert(lines.take(i as int) =~= lines);
        assert(text::strings(offers@).len() == offers@.len());
    }
    if fields.len() > 0 && offers.len() == 0 {
        return Err(HandshakeError::NoWebsocketUpgrade);
    }
    Ok(offers)
}

fn is_known_version(version: &HeaderValue) -> (known: bool)
    ensures
        known == known_version(version@),
{
    let bytes = version.as_bytes();
    proof {
        assert(bytes@.len() == 1 && bytes@[0] == 0x37 ==> bytes@ =~= seq![0x37u8]);
        assert(bytes@.len() == 1 && bytes@[0] == 0x38 ==> bytes@ =~= seq![0x38u8]);
        assert(bytes@.len() == 2 && bytes@[0] == 0x31 && bytes@[1] == 0x33 ==> bytes@ =~= seq![
            0x31u8,
            0x33u8,
        ]);
    }
    (bytes.len() == 2 && bytes[0] == 0x31 && bytes[1] == 0x33) || (bytes.len() == 1 && (bytes[0]
        == 0x38 || bytes[0] == 0x37))
}

// ---------------------------------------------------------------------------
// Answers
// ---------------------------------------------------------------------------
/// The subprotocol that an upgrade selects: the configured one, if it was offered.
pub open spec fn selected_subprotocol(
    configured: Option<&'static str>,
    offers: Seq<Seq<char>>,
) -> Option<Seq<char>> {
    match configured {
        Some(protocol) => if offers.contains(protocol@) {
            Some(protocol@)
        } else {
            None
        },
        None => None,
    }
}

/// The fields of the response that accepts an upgrade, from those of the plain
/// handshake response.
pub open spec fn accepted_fields(
    fields: Map<Seq<char>, Seq<Seq<u8>>>,
    configured: Option<&'static str>,
    offers: Seq<Seq<char>>,
) -> Map<Seq<char>, Seq<Seq<u8>>> {
    let unframed = fields.remove("transfer-encoding"@);
    match selected_subprotocol(configured, offers) {
        Some(protocol) => if http::valid_value(vstd::utf8::encode_utf8(protocol)) {
            unframed.insert("sec-websocket-protocol"@, seq![vstd::utf8::encode_utf8(protocol)])
        } else {
            unframed
        },
        None => unframed,
    }
}

/// Completes the response that accepts an upgrade: it has no transfer coding, and
/// it names the configured subprotocol where the client offered it.
pub fn start(config: &LeptosServerFnConfig, offered: &Vec<String>, headers: &mut HeaderMap)
    ensures
        http::header_fields(*final(headers)) == accepted_fields(
            http::header_fields(*old(headers)),
            config.ws_subprotocol,
            text::strings(offered@),
        ),
{
    proof {
        http::lemma_known_names();
        reveal_strlit("transfer-encoding");
        http::lemma_plain_name("transfer-encoding"@);
    }
    http::remove_field(headers, "transfer-encoding");
    if let Some(protocol) = config.ws_subprotocol {
        if contains_text(offered, protocol) {
            if let Some(value) = HeaderValue::from_text(protocol) {
                http::insert_field(headers, "sec-websocket-protocol", &value);
            }
        }
    }
}

/// Completes the response that refuses an upgrade: where the version was the
/// reason, it names the versions that are spoken.
pub fn failure_response(error: HandshakeError, headers: &mut HeaderMap)
    ensures
        http::header_fields(*final(headers)) == (if error == HandshakeError::UnsupportedVersion {
            http::header_fields(*old(headers)).insert(
                "sec-websocket-version"@,
                seq![vstd::utf8::encode_utf8("13, 8, 7"@)],
            )
        } else {
            http::header_fields(*old(headers))
        }),
{
    if error == HandshakeError::UnsupportedVersion {
        proof {
            http::lemma_known_names();
            reveal_strlit("13, 8, 7");
            http::lemma_visible_text("13, 8, 7"@);
        }
        if let Some(value) = HeaderValue::from_text("13, 8, 7") {
            http::insert_field(headers, "sec-websocket-version", &value);
        }
    }
}

// ---------------------------------------------------------------------------
// Laws
// ---------------------------------------------------------------------------
/// Every subprotocol that a valid handshake offers is a token and legal in a header
/// value, and none is offered twice. So a selected one is always announced.
pub proof fn selected_subprotocols_are_offered_tokens(
    get: bool,
    http_11: bool,
    headers: HeaderMap,
    configured: Option<&'static str>,
)
    requires
        handshake(get, http_11, headers) is Ok,
    ensures
        handshake(get, http_11, headers)->Ok_0.no_duplicates(),
        selected_subprotocol(configured, handshake(get, http_11, headers)->Ok_0) matches Some(
            protocol,
        ) ==> http::is_token_text(protocol) && http::valid_value(
            vstd::utf8::encode_utf8(protocol),
        ),
{
    let offers = handshake(get, http_11, headers)->Ok_0;
    if let Some(protocol) = selected_subprotocol(configured, offers) {
        let i: int = choose|i: int| 0 <= i < offers.len() && offers[i] == protocol;
        assert(http::is_token_text(offers[i]));
        assert forall|k: int| 0 <= k < protocol.len() implies ' ' <= #[trigger] protocol[k]
            <= '~' by {
            assert(http::token_char(protocol[k]));
        }
        http::lemma_visible_text(protocol);
    }
}

/// A request that is not an HTTP/1.1 GET is never upgraded.
pub proof fn only_http_11_get_is_upgraded(get: bool, http_11: bool, headers: HeaderMap)
    requires
        !get || !http_11,
    ensures
        handshake(get, http_11, headers) is Err,
{
}

/// A handshake succeeds exactly if the request is an HTTP/1.1 GET that names the protocol
/// and the upgrade, one version that is spoken, and one key of sixteen bytes, and its
/// offers can be read; it then yields those offers.
pub proof fn handshakes_succeed_by_the_rules(
    get: bool,
    http_11: bool,
    headers: HeaderMap,
    key_length: Option<usize>,
)
    ensures
        ({
            let versions = http::values_of(headers, "sec-websocket-version"@);
            let keys = http::values_of(headers, "sec-websocket-key"@);
            let offers = subprotocol_offers(http::values_of(headers, "sec-websocket-protocol"@));
            let outcome = handshake_by_key(get, http_11, headers, key_length);
            &&& outcome is Ok <==> get && http_11 && names_token(
                http::values_of(headers, "upgrade"@),
                "websocket"@,
            ) && names_token(http::values_of(headers, "connection"@), "upgrade"@) && versions.len()
                == 1 && (versions[0] == seq![0x31u8, 0x33u8] || versions[0] == seq![0x38u8]
                || versions[0] == seq![0x37u8]) && keys.len() == 1 && key_length == Some(16usize)
                && offers is Some
            &&& outcome is Ok ==> offers == Some(outcome->Ok_0)
        }),
{
}

/// What a handshake is refused for is what is wrong with it, and a later rule is named
/// only where every earlier one holds.
pub proof fn refusals_name_the_broken_rule(
    get: bool,
    http_11: bool,
    headers: HeaderMap,
    key_length: Option<usize>,
)
    ensures
        match handshake_by_key(get, http_11, headers, key_length) {
            Err(HandshakeError::GetMethodRequired) => !get,
            Err(HandshakeError::NoWebsocketUpgrade) => get && (!http_11 || !names_token(
                http::values_of(headers, "upgrade"@),
                "websocket"@,
            ) || subprotocol_offers(http::values_of(headers, "sec-websocket-protocol"@)) is None),
            Err(HandshakeError::NoConnectionUpgrade) => get && http_11 && !names_token(
                http::values_of(headers, "connection"@),
                "upgrade"@,
            ),
            Err(HandshakeError::NoVersionHeader) => get && http_11 && names_token(
                http::values_of(headers, "connection"@),
                "upgrade"@,
            ) && http::values_of(headers, "sec-websocket-version"@).len() == 0,
            Err(HandshakeError::UnsupportedVersion) => get && http_11 && http::values_of(
                headers,
                "sec-websocket-version"@,
            ).len() > 0 && (http::values_of(headers, "sec-websocket-version"@).len() > 1 || (
            http::values_of(headers, "sec-websocket-version"@)[0] != seq![0x31u8, 0x33u8]
                && http::values_of(headers, "sec-websocket-version"@)[0] != seq![0x38u8]
                && http::values_of(headers, "sec-websocket-version"@)[0] != seq![0x37u8])),
            Err(HandshakeError::BadWebsocketKey) => get && http_11 && (http::values_of(
                headers,
                "sec-websocket-key"@,
            ).len() != 1 || key_length != Some(16usize)) && http::values_of(
                headers,
                "sec-websocket-version"@,
            ).len() == 1,
            Ok(_) => get && http_11,
        },
        !get ==> handshake_by_key(get, http_11, headers, key_length) == Err::<
            Seq<Seq<char>>,
            HandshakeError,
        >(HandshakeError::GetMethodRequired),
        get && !http_11 ==> handshake_by_key(get, http_11, headers, key_length) == Err::<
            Seq<Seq<char>>,
            HandshakeError,
        >(HandshakeError::NoWebsocketUpgrade),
{
}

/// A token is named exactly if it is a member of one of the lines that are text, up to
/// whitespace and case; further lines never take it back.
pub proof fn tokens_are_found_in_any_line(
    lines: Seq<Seq<u8>>,
    more: Seq<Seq<u8>>,
    token: Seq<char>,
    i: int,
    k: int,
)
    ensures
        names_token(lines + more, token) <==> names_token(lines, token) || names_token(more, token),
        0 <= i < lines.len() && http::visible(lines[i]) && 0 <= k < text::split(
            http::ascii_text(lines[i]),
            ',',
        ).len() && text::lowercase(text::trimmed(text::split(http::ascii_text(lines[i]), ',')[k]))
            == text::lowercase(token) ==> names_token(lines, token),
        (forall|j: int| 0 <= j < lines.len() ==> !http::visible(#[trigger] lines[j]))
            ==> !names_token(lines, token),
{
    let all = lines + more;
    if names_token(lines, token) {
        let j: int = choose|j: int| 0 <= j < lines.len() && line_lists_token(
            #[trigger] lines[j],
            token,
        );
        assert(all[j] == lines[j]);
    }
    if names_token(more, token) {
        let j: int = choose|j: int| 0 <= j < more.len() && line_lists_token(
            #[trigger] more[j],
            token,
        );
        assert(all[lines.len() + j] == more[j]);
    }
    if names_token(all, token) {
        let j: int = choose|j: int| 0 <= j < all.len() && line_lists_token(#[trigger] all[j], token);
        if j < lines.len() {
            assert(all[j] == lines[j]);
        } else {
            assert(all[j] == more[j - lines.len()]);
        }
    }
    if 0 <= i < lines.len() && http::visible(lines[i]) && 0 <= k < text::split(
        http::ascii_text(lines[i]),
        ',',
    ).len() && text::lowercase(text::trimmed(text::split(http::ascii_text(lines[i]), ',')[k]))
        == text::lowercase(token) {
        assert(lists_token(http::ascii_text(lines[i]), token));
        assert(line_lists_token(lines[i], token));
    }
}

proof fn lemma_members_sides(a: Seq<Seq<char>>, b: Seq<Seq<char>>)
    ensures
        members(a + b) == members(a) + members(b),
    decreases b.len(),
{
    if b.len() == 0 {
        assert(a + b =~= a);
        assert(members(a) + members(b) =~= members(a));
    } else {
        assert((a + b).drop_last() =~= a + b.drop_last());
        assert((a + b).last() == b.last());
        lemma_members_sides(a, b.drop_last());
        assert(members(a + b) =~= members(a) + members(b));
    }
}

proof fn lemma_member(part: Seq<char>)
    ensures
        members(seq![part]) == (if text::unpadded(part).len() == 0 {
            Seq::<Seq<char>>::empty()
        } else {
            seq![text::unpadded(part)]
        }),
{
    reveal_with_fuel(members, 2);
    assert(seq![part].drop_last() =~= Seq::<Seq<char>>::empty());
    assert(Seq::<Seq<char>>::empty().push(text::unpadded(part)) =~= seq![text::unpadded(part)]);
}

proof fn lemma_offered_sides(a: Seq<Seq<u8>>, b: Seq<Seq<u8>>)
    ensures
        offered_members(a + b) == (match (offered_members(a), offered_members(b)) {
            (Some(x), Some(y)) => Some(x + y),
            _ => None,
        }),
    decreases b.len(),
{
    if b.len() == 0 {
        assert(a + b =~= a);
        if let Some(x) = offered_members(a) {
            assert(x + Seq::<Seq<char>>::empty() =~= x);
        }
    } else {
        assert((a + b).drop_last() =~= a + b.drop_last());
        assert((a + b).last() == b.last());
        lemma_offered_sides(a, b.drop_last());
        if offered_members(a + b) is Some {
            let (x, y) = (offered_members(a)->0, offered_members(b.drop_last())->0);
            let last = members(text::split(http::value_text(b.last())->0, ','));
            assert((x + y) + last =~= x + (y + last));
        }
    }
}

/// A line offers what stands between its commas, in order and without padding; what is
/// empty offers nothing.
pub proof fn lines_offer_their_members(a: Seq<char>, b: Seq<char>)
    ensures
        members(text::split(a + seq![','] + b, ',')) == members(text::split(a, ',')) + members(
            text::split(b, ','),
        ),
        !a.contains(',') ==> members(text::split(a, ',')) == (if text::unpadded(a).len() == 0 {
            Seq::<Seq<char>>::empty()
        } else {
            seq![text::unpadded(a)]
        }),
{
    text::split_sides(a, b, ',');
    lemma_members_sides(text::split(a, ','), text::split(b, ','));
    if !a.contains(',') {
        text::lemma_split_none(a, ',');
        assert(text::split(a, ',') =~= seq![a]);
        lemma_member(a);
    }
}

/// The offers of all lines stand together: those of two sets of lines are those of the
/// first and then those of the second, if no subprotocol is offered by both. A request
/// without such lines offers nothing, and a line that is no text spoils all of them.
pub proof fn offers_of_all_lines_stand_together(a: Seq<Seq<u8>>, b: Seq<Seq<u8>>, line: Seq<u8>)
    ensures
        subprotocol_offers(Seq::empty()) == Some(Seq::<Seq<char>>::empty()),
        subprotocol_offers(a) is Some && subprotocol_offers(b) is Some && (forall|i: int, j: int|
            0 <= i < subprotocol_offers(a)->0.len() && 0 <= j < subprotocol_offers(b)->0.len()
                ==> #[trigger] subprotocol_offers(a)->0[i]
                != #[trigger] subprotocol_offers(b)->0[j]) ==> subprotocol_offers(a + b) == Some(
            subprotocol_offers(a)->0 + subprotocol_offers(b)->0,
        ),
        subprotocol_offers(a + b) is Some && b.len() > 0 && a.len() > 0 ==> offered_members(a)
            is Some && offered_members(b) is Some && subprotocol_offers(a + b)->0
            == offered_members(a)->0 + offered_members(b)->0,
        a.contains(line) && !http::visible(line) ==> subprotocol_offers(a) is None,
{
    lemma_offered_sides(a, b);
    if subprotocol_offers(a) is Some && subprotocol_offers(b) is Some {
        let (x, y) = (subprotocol_offers(a)->0, subprotocol_offers(b)->0);
        let all = x + y;
        assert forall|i: int| 0 <= i < all.len() implies http::is_token_text(#[trigger] all[i]) by {
            if i < x.len() {
                assert(all[i] == x[i]);
            } else {
                assert(all[i] == y[i - x.len()]);
            }
        }
        if forall|i: int, j: int|
            0 <= i < x.len() && 0 <= j < y.len() ==> #[trigger] x[i] != #[trigger] y[j] {
            assert forall|i: int, j: int|
                0 <= i < all.len() && 0 <= j < all.len() && i != j implies all[i] != all[j] by {
                if i < x.len() && j < x.len() {
                    assert(x[i] != x[j]);
                } else if i >= x.len() && j >= x.len() {
                    assert(y[i - x.len()] != y[j - x.len()]);
                } else if i < x.len() {
                    assert(x[i] != y[j - x.len()]);
                } else {
                    assert(x[j] != y[i - x.len()]);
                }
            }
            assert(all.no_duplicates());
        }
    }
    if a.contains(line) && !http::visible(line) {
        let i: int = choose|i: int| 0 <= i < a.len() && a[i] == line;
        let front = a.take(i + 1);
        assert(front.last() == line);
        assert(offered_members(front) is None);
        lemma_offered_sides(front, a.skip(i + 1));
        assert(front + a.skip(i + 1) =~= a);
    }
}

/// One line offers its members exactly if there is one, all are tokens, and none occurs
/// twice.
pub proof fn one_line_offers_its_tokens(line: Seq<u8>)
    requires
        http::visible(line),
    ensures
        ({
            let given = members(text::split(http::ascii_text(line), ','));
            let fair = given.len() > 0 && given.no_duplicates() && forall|i: int|
                0 <= i < given.len() ==> http::is_token_text(#[trigger] given[i]);
            subprotocol_offers(seq![line]) == (if fair {
                Some(given)
            } else {
                None
            })
        }),
{
    reveal_with_fuel(offered_members, 2);
    assert(seq![line].drop_last() =~= Seq::<Seq<u8>>::empty());
    let given = members(text::split(http::ascii_text(line), ','));
    assert(Seq::<Seq<char>>::empty() + given =~= given);
}

/// The configured subprotocol is selected exactly if it is offered, and no other ever is.
/// It is announced in the answer, in which nothing else changes but that a transfer
/// coding is dropped.
pub proof fn configured_subprotocols_are_announced(
    fields: Map<Seq<char>, Seq<Seq<u8>>>,
    configured: &'static str,
    offers: Seq<Seq<char>>,
    name: Seq<char>,
)
    requires
        http::valid_value(vstd::utf8::encode_utf8(configured@)),
    ensures
        ({
            let after = accepted_fields(fields, Some(configured), offers);
            let plain = accepted_fields(fields, None, offers);
            &&& offers.contains(configured@) ==> after.contains_key("sec-websocket-protocol"@)
                && after["sec-websocket-protocol"@] == seq![vstd::utf8::encode_utf8(configured@)]
            &&& !offers.contains(configured@) ==> after == plain
            &&& !after.contains_key("transfer-encoding"@)
            &&& !plain.contains_key("transfer-encoding"@)
            &&& name != "transfer-encoding"@ ==> plain.contains_key(name) == fields.contains_key(
                name,
            ) && (fields.contains_key(name) ==> plain[name] == fields[name])
            &&& name != "transfer-encoding"@ && name != "sec-websocket-protocol"@
                ==> after.contains_key(name) == fields.contains_key(name) && (fields.contains_key(
                name,
            ) ==> after[name] == fields[name])
        }),
{
    reveal_strlit("transfer-encoding");
    reveal_strlit("sec-websocket-protocol");
    assert("transfer-encoding"@.len() != "sec-websocket-protocol"@.len());
}

/// A request is upgraded exactly if it keeps every rule, with the offers that it makes.
pub proof fn handshakes_are_checked(
    request: &UpgradeRequest<'_>,
    key_length: Option<usize>,
    r: Result<Vec<String>, HandshakeError>,
)
    requires
        call_ensures(check_handshake, (request, key_length), r),
    ensures
        ({
            let headers = *request.headers;
            let versions = http::values_of(headers, "sec-websocket-version"@);
            let offers = subprotocol_offers(http::values_of(headers, "sec-websocket-protocol"@));
            &&& r is Ok ==> request.get && request.http_11 && versions.len() == 1 && key_length
                == Some(16usize)
            &&& r matches Ok(given) ==> offers == Some(text::strings(given@))
            &&& !request.get ==> r == Err::<Vec<String>, HandshakeError>(
                HandshakeError::GetMethodRequired,
            )
            &&& request.get && request.http_11 && names_token(
                http::values_of(headers, "upgrade"@),
                "websocket"@,
            ) && names_token(http::values_of(headers, "connection"@), "upgrade"@) && versions.len()
                == 1 && versions[0] == seq![0x31u8, 0x33u8] && http::values_of(
                headers,
                "sec-websocket-key"@,
            ).len() == 1 && key_length == Some(16usize) && offers is Some ==> r is Ok
        }),
{
    handshakes_succeed_by_the_rules(request.get, request.http_11, *request.headers, key_length);
}

/// Only a refusal for the version names the versions that are spoken.
pub proof fn refusals_name_the_versions(
    error: HandshakeError,
    headers: &mut HeaderMap,
    name: Seq<char>,
)
    requires
        call_ensures(failure_response, (error, headers), ()),
    ensures
        error != HandshakeError::UnsupportedVersion ==> http::header_fields(*final(headers))
            == http::header_fields(*old(headers)),
        error == HandshakeError::UnsupportedVersion ==> http::header_fields(
            *final(headers),
        ).contains_key("sec-websocket-version"@) && http::header_fields(
            *final(headers),
        )["sec-websocket-version"@].len() == 1,
        name != "sec-websocket-version"@ ==> http::header_fields(*final(headers)).contains_key(name)
            == http::header_fields(*old(headers)).contains_key(name),
{
}

} // verus!
