//! Configuration of the server-function dispatcher, and the limits on request
//! bodies.

use crate::http::{self, first_value, HeaderValue};
use crate::text::{self, copy_bytes, parse_usize};
use ntex::http::HeaderMap;
use vstd::prelude::*;

verus! {

/// Default limit on the payload of a server-function request and on each message
/// of a server-function WebSocket: 2 MiB.
pub const DEFAULT_PAYLOAD_LIMIT: usize = 2 * 1024 * 1024;

/// Default capacity of the channels of a server-function WebSocket.
pub const DEFAULT_WS_CHANNEL_BUFFER: usize = 2048;

/// Tunables for the server-function dispatcher.
#[derive(Clone, Copy, Debug)]
pub struct LeptosServerFnConfig {
    /// Largest accepted body of a server-function request, and largest message of
    /// a server-function WebSocket, in bytes.
    pub payload_limit: usize,
    /// Capacity of the channels of a server-function WebSocket.
    pub ws_channel_buffer: usize,
    /// Subprotocol that is selected during the upgrade if the client offers it.
    pub ws_subprotocol: Option<&'static str>,
}

impl LeptosServerFnConfig {
    /// The defaults of this crate.
    pub open spec fn defaults(self) -> bool {
        &&& self.payload_limit == DEFAULT_PAYLOAD_LIMIT
        &&& self.ws_channel_buffer == DEFAULT_WS_CHANNEL_BUFFER
        &&& self.ws_subprotocol is None
    }

    /// Creates a config with the defaults of this crate.
    pub fn new() -> (config: LeptosServerFnConfig)
        ensures
            config.defaults(),
    {
        LeptosServerFnConfig {
            payload_limit: DEFAULT_PAYLOAD_LIMIT,
            ws_channel_buffer: DEFAULT_WS_CHANNEL_BUFFER,
            ws_subprotocol: None,
        }
    }

    /// Sets the largest accepted payload.
    pub fn with_payload_limit(self, payload_limit: usize) -> (config: LeptosServerFnConfig)
        ensures
            config == (LeptosServerFnConfig { payload_limit, ..self }),
    {
        LeptosServerFnConfig { payload_limit, ..self }
    }

    /// Sets the capacity of the WebSocket channels.
    pub fn with_ws_channel_buffer(self, ws_channel_buffer: usize) -> (config: LeptosServerFnConfig)
        ensures
            config == (LeptosServerFnConfig { ws_channel_buffer, ..self }),
    {
        LeptosServerFnConfig { ws_channel_buffer, ..self }
    }

    /// Sets the WebSocket subprotocol.
    pub fn with_ws_subprotocol(self, ws_subprotocol: &'static str) -> (config: LeptosServerFnConfig)
        ensures
            config == (LeptosServerFnConfig { ws_subprotocol: Some(ws_subprotocol), ..self }),
    {
        LeptosServerFnConfig { ws_subprotocol: Some(ws_subprotocol), ..self }
    }
}

impl Default for LeptosServerFnConfig {
    fn default() -> (config: Self)
        ensures
            config.defaults(),
    {
        LeptosServerFnConfig::new()
    }
}

/// The configuration in force: the one that the application registered, or the
/// defaults.
pub fn server_fn_config(registered: Option<LeptosServerFnConfig>) -> (config: LeptosServerFnConfig)
    ensures
        match registered {
            Some(given) => config == given,
            None => config.defaults(),
        },
{
    match registered {
        Some(given) => given,
        None => LeptosServerFnConfig::new(),
    }
}

/// The length that a `Content-Length` value declares, if it is a number.
pub open spec fn declared_length(value: Seq<u8>) -> Option<usize> {
    match http::value_text(value) {
        Some(line) => text::parsed_usize(line),
        None => None,
    }
}

fn read_declared_length(value: &HeaderValue) -> (length: Option<usize>)
    ensures
        length == declared_length(value@),
{
    match value.to_text() {
        Some(line) => parse_usize(line.as_str()),
        None => None,
    }
}

/// The `Content-Length` of a request, if it declares a number.
pub open spec fn content_length(headers: HeaderMap) -> Option<usize> {
    if http::has_field(headers, "content-length"@) {
        declared_length(http::values_of(headers, "content-length"@)[0])
    } else {
        None
    }
}

/// Reads the `Content-Length` of a request.
pub fn read_content_length(headers: &HeaderMap) -> (length: Option<usize>)
    ensures
        length == content_length(*headers),
{
    match first_value(headers, "content-length") {
        Some(value) => read_declared_length(&value),
        None => None,
    }
}

/// Whether a request declares a body that is refused unread: one over the limit,
/// or one whose declaration is no number. A request without a declaration is not
/// refused here.
pub fn content_length_exceeds(headers: &HeaderMap, limit: usize) -> (refused: bool)
    ensures
        refused <==> http::has_field(*headers, "content-length"@) && (match content_length(
            *headers,
        ) {
            Some(declared) => declared > limit,
            None => true,
        }),
{
    match first_value(headers, "content-length") {
        None => false,
        Some(value) => match read_declared_length(&value) {
            Some(declared) => declared > limit,
            None => true,
        },
    }
}

/// The most that a declared length alone reserves: 64 KiB.
pub const INITIAL_PAYLOAD_CAPACITY_CAP: usize = 64 * 1024;

/// Initial buffer capacity for a request body: the declared length where it is
/// within the limit, capped; else nothing.
pub fn initial_payload_capacity(content_length: Option<usize>, limit: usize) -> (capacity: usize)
    ensures
        capacity == (match content_length {
            Some(declared) => if declared > limit {
                0
            } else if declared > INITIAL_PAYLOAD_CAPACITY_CAP {
                INITIAL_PAYLOAD_CAPACITY_CAP
            } else {
                declared
            },
            None => 0,
        }),
{
    match content_length {
        Some(declared) => if declared > limit {
            0
        } else if declared > INITIAL_PAYLOAD_CAPACITY_CAP {
            INITIAL_PAYLOAD_CAPACITY_CAP
        } else {
            declared
        },
        None => 0,
    }
}

/// What is said about a payload over the limit.
pub open spec fn oversize_text(limit: usize) -> Seq<char> {
    "payload exceeds limit of "@ + text::decimal(limit as nat) + " bytes"@
}

/// What is said about a payload over the limit.
pub fn oversize_message(limit: usize) -> (message: String)
    ensures
        message@ == oversize_text(limit),
{
    text::concat3(
        "payload exceeds limit of ",
        text::format_decimal(limit as u64).as_str(),
        " bytes",
    )
}

// ---------------------------------------------------------------------------
// Collecting a body
// ---------------------------------------------------------------------------
/// A chunk took the payload over the limit.
#[derive(Clone, Copy, Debug, PartialEq, Eq, Structural)]
pub struct PayloadTooLarge;

/// The body of a request so far. Chunks go in as they arrive.
pub struct PayloadCollector {
    limit: usize,
    body: Vec<u8>,
}

impl View for PayloadCollector {
    type V = Seq<u8>;

    closed spec fn view(&self) -> Seq<u8> {
        self.body@
    }
}

impl PayloadCollector {
    pub closed spec fn limit(self) -> usize {
        self.limit
    }

    #[verifier::type_invariant]
    spec fn within_limit(self) -> bool {
        self.body@.len() <= self.limit
    }

    /// An empty body under a limit; `content_length` is what the request declares.
    pub fn new(content_length: Option<usize>, limit: usize) -> (collector: PayloadCollector)
        ensures
            collector@ == Seq::<u8>::empty(),
            collector.limit() == limit,
    {
        PayloadCollector {
            limit,
            body: Vec::with_capacity(initial_payload_capacity(content_length, limit)),
        }
    }

    /// Takes the next chunk. A chunk that takes the body over the limit is refused
    /// and not kept.
    pub fn push(&mut self, chunk: &[u8]) -> (r: Result<(), PayloadTooLarge>)
        ensures
            final(self).limit() == old(self).limit(),
            match r {
                Ok(()) => {
                    &&& old(self)@.len() + chunk@.len() <= old(self).limit()
                    &&& final(self)@ == old(self)@ + chunk@
                },
                Err(_) => {
                    &&& old(self)@.len() + chunk@.len() > old(self).limit()
                    &&& final(self)@ == old(self)@
                },
            },
    {
        proof {
            use_type_invariant(&*self);
        }
        if chunk.len() > self.limit - self.body.len() {
            return Err(PayloadTooLarge);
        }
        let mut body: Vec<u8> = Vec::new();
        std::mem::swap(&mut body, &mut self.body);
        let mut more = copy_bytes(chunk);
        body.append(&mut more);
        self.body = body;
        Ok(())
    }

    /// The whole body.
    pub fn finish(self) -> (body: Vec<u8>)
        ensures
            body@ == self@,
            body@.len() <= self.limit(),
    {
        proof {
            use_type_invariant(&self);
        }
        self.body
    }
}

/// The chunks of a body, in order.
pub open spec fn joined(chunks: Seq<Seq<u8>>) -> Seq<u8>
    decreases chunks.len(),
{
    if chunks.len() == 0 {
        Seq::empty()
    } else {
        joined(chunks.drop_last()) + chunks.last()
    }
}

/// The body that a collector holds after these chunks, or none once one of them
/// was refused.
pub open spec fn collected(chunks: Seq<Seq<u8>>, limit: usize) -> Option<Seq<u8>>
    decreases chunks.len(),
{
    if chunks.len() == 0 {
        Some(Seq::empty())
    } else {
        match collected(chunks.drop_last(), limit) {
            Some(body) => if body.len() + chunks.last().len() <= limit {
                Some(body + chunks.last())
            } else {
                None
            },
            None => None,
        }
    }
}

/// A body is collected whole exactly if it is within the limit, however it is cut
/// into chunks.
pub proof fn body_is_collected_iff_within_limit(chunks: Seq<Seq<u8>>, limit: usize)
    ensures
        collected(chunks, limit) == (if joined(chunks).len() <= limit {
            Some(joined(chunks))
        } else {
            None
        }),
    decreases chunks.len(),
{
    if chunks.len() > 0 {
        body_is_collected_iff_within_limit(chunks.drop_last(), limit);
    }
}

/// The chunks of a body stand one behind the other in it, in order and whole.
pub proof fn bodies_hold_their_chunks_in_order(a: Seq<Seq<u8>>, b: Seq<Seq<u8>>, chunk: Seq<u8>)
    ensures
        joined(seq![chunk]) == chunk,
        joined(a + b) == joined(a) + joined(b),
    decreases b.len(),
{
    reveal_with_fuel(joined, 2);
    assert(seq![chunk].drop_last() =~= Seq::<Seq<u8>>::empty());
    assert(joined(seq![chunk]) =~= chunk);
    if b.len() == 0 {
        assert(a + b =~= a);
        assert(joined(a) + joined(b) =~= joined(a));
    } else {
        assert((a + b).drop_last() =~= a + b.drop_last());
        assert((a + b).last() == b.last());
        bodies_hold_their_chunks_in_order(a, b.drop_last(), chunk);
        assert(joined(a + b) =~= joined(a) + joined(b));
    }
}

/// A length that is written in decimal is read as that number, and a value with a letter
/// or another sign in it is no length.
pub proof fn declared_lengths_are_read_as_written(value: Seq<u8>, n: usize, i: int)
    ensures
        http::visible(value) && http::ascii_text(value) == text::decimal(n as nat)
            ==> declared_length(value) == Some(n),
        !http::visible(value) ==> declared_length(value) is None,
        http::visible(value) && 0 < i < value.len() && !(0x30 <= value[i] <= 0x39)
            ==> declared_length(value) is None,
{
    text::numbers_are_read_as_written(n as nat);
    if http::visible(value) && 0 < i < value.len() && !(0x30 <= value[i] <= 0x39) {
        let line = http::ascii_text(value);
        assert(line[i] == value[i] as char);
        assert((value[i] as char) as u8 == value[i]);
        text::other_texts_are_no_numbers(line, i);
    }
}

/// A setting changes what it names and nothing else, so that the order of settings of
/// different things does not matter.
pub proof fn settings_are_independent(
    config: LeptosServerFnConfig,
    limit: usize,
    buffer: usize,
    protocol: &'static str,
    limited: LeptosServerFnConfig,
    buffered: LeptosServerFnConfig,
    named: LeptosServerFnConfig,
)
    requires
        call_ensures(LeptosServerFnConfig::with_payload_limit, (config, limit), limited),
        call_ensures(LeptosServerFnConfig::with_ws_channel_buffer, (config, buffer), buffered),
        call_ensures(LeptosServerFnConfig::with_ws_subprotocol, (config, protocol), named),
    ensures
        limited.payload_limit == limit,
        limited.ws_channel_buffer == config.ws_channel_buffer,
        limited.ws_subprotocol == config.ws_subprotocol,
        buffered.ws_channel_buffer == buffer,
        buffered.payload_limit == config.payload_limit,
        buffered.ws_subprotocol == config.ws_subprotocol,
        named.ws_subprotocol == Some(protocol),
        named.payload_limit == config.payload_limit,
        named.ws_channel_buffer == config.ws_channel_buffer,
{
}

/// What was registered is used.
pub proof fn registered_settings_are_used(
    given: LeptosServerFnConfig,
    config: LeptosServerFnConfig,
)
    requires
        call_ensures(server_fn_config, (Some(given),), config),
    ensures
        config == given,
{
}

/// A declared length never reserves more than itself, the limit or 64 KiB; within those it
/// is reserved whole, and a length over the limit, or none, reserves nothing.
pub proof fn declared_lengths_reserve_little(declared: usize, limit: usize, capacity: usize)
    requires
        call_ensures(initial_payload_capacity, (Some(declared), limit), capacity),
    ensures
        capacity <= declared,
        capacity <= limit,
        capacity <= 65536,
        declared <= limit && declared <= 65536 ==> capacity == declared,
        declared <= limit && declared > 65536 ==> capacity == 65536,
        declared > limit ==> capacity == 0,
{
}

/// Without a declared length nothing is reserved.
pub proof fn unknown_lengths_reserve_nothing(limit: usize, capacity: usize)
    requires
        call_ensures(initial_payload_capacity, (None, limit), capacity),
    ensures
        capacity == 0,
{
}

/// A body whose declared length is within the limit is read, one over it is refused
/// unread, and so is one whose length is no number.
pub proof fn declared_lengths_are_held_to_the_limit(
    headers: &HeaderMap,
    limit: usize,
    length: Option<usize>,
    refused: bool,
)
    requires
        call_ensures(read_content_length, (headers,), length),
        call_ensures(content_length_exceeds, (headers, limit), refused),
    ensures
        length matches Some(declared) ==> (refused <==> declared > limit),
        length is None && http::has_field(*headers, "content-length"@) ==> refused,
        !http::has_field(*headers, "content-length"@) ==> !refused && length is None,
{
}

/// Chunks are collected in order, each of them whole or not at all, and what was collected
/// is the body.
pub proof fn chunks_are_collected_in_order(
    collector: &mut PayloadCollector,
    later: &mut PayloadCollector,
    first: &[u8],
    second: &[u8],
    r: Result<(), PayloadTooLarge>,
    s: Result<(), PayloadTooLarge>,
    body: Vec<u8>,
)
    requires
        call_ensures(PayloadCollector::push, (collector, first), r),
        *old(later) == *final(collector),
        call_ensures(PayloadCollector::push, (later, second), s),
        call_ensures(PayloadCollector::finish, (*final(later),), body),
    ensures
        r is Ok <==> old(collector)@.len() + first@.len() <= old(collector).limit(),
        r is Ok && s is Ok ==> body@ == old(collector)@ + first@ + second@,
        r is Ok && s is Err ==> body@ == old(collector)@ + first@,
        r is Err && s is Err ==> body@ == old(collector)@,
        body@.len() <= old(collector).limit(),
{
}

/// What is said about a payload over the limit tells the limits apart.
pub proof fn oversize_texts_name_the_limit(a: usize, b: usize)
    requires
        oversize_text(a) == oversize_text(b),
    ensures
        a == b,
{
    let front = "payload exceeds limit of "@;
    let back = " bytes"@;
    let (x, y) = (text::decimal(a as nat), text::decimal(b as nat));
    text::lemma_decimal_roundtrip(a as nat);
    text::lemma_decimal_roundtrip(b as nat);
    assert(oversize_text(a).len() == front.len() + x.len() + back.len());
    assert(oversize_text(b).len() == front.len() + y.len() + back.len());
    assert(x =~= y) by {
        assert forall|i: int| 0 <= i < x.len() implies x[i] == y[i] by {
            assert(oversize_text(a)[front.len() + i] == x[i]);
            assert(oversize_text(b)[front.len() + i] == y[i]);
        }
    }
}

/// Unless it is told otherwise, a server takes bodies of up to two mebibytes, queues 2048
/// messages, and speaks no subprotocol.
pub proof fn defaults_are_moderate(fresh: LeptosServerFnConfig, unregistered: LeptosServerFnConfig)
    requires
        call_ensures(LeptosServerFnConfig::new, (), fresh),
        call_ensures(server_fn_config, (None::<LeptosServerFnConfig>,), unregistered),
    ensures
        fresh.payload_limit == 2_097_152,
        fresh.ws_channel_buffer == 2048,
        fresh.ws_subprotocol is None,
        unregistered.payload_limit == fresh.payload_limit,
        unregistered.ws_channel_buffer == fresh.ws_channel_buffer,
        unregistered.ws_subprotocol is None,
{
}

} // verus!
