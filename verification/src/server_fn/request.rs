//! The request that a server function reads: its metadata and its body.

use crate::config::{self, oversize_message, PayloadCollector, PayloadTooLarge};
use crate::http::{self, first_value};
use crate::text::{self, string_from_utf8, string_from_utf8_lossy};
use ntex::http::HeaderMap;
use vstd::prelude::*;

verus! {

/// The metadata of a server-function request.
pub struct NtexRequest {
    /// The raw query of the request target, if it has one.
    pub query: Option<String>,
    pub headers: HeaderMap,
}

/// The text of the first value of a field, malformed bytes replaced.
pub open spec fn lossy_header(headers: HeaderMap, name: Seq<char>) -> Option<Seq<char>> {
    if http::has_field(headers, name) {
        Some(text::lossy_text(http::values_of(headers, name)[0]))
    } else {
        None
    }
}

impl NtexRequest {
    /// The first value of a field as text. Malformed bytes are replaced; a field
    /// that is present but empty is an empty text.
    pub fn header(&self, name: &str) -> (value: Option<String>)
        ensures
            text::optional_text(value) == lossy_header(self.headers, name@),
            value matches Some(s) ==> vstd::utf8::valid_utf8(
                http::values_of(self.headers, name@)[0],
            ) ==> s@ == vstd::utf8::decode_utf8(http::values_of(self.headers, name@)[0]),
    {
        match first_value(&self.headers, name) {
            Some(value) => Some(string_from_utf8_lossy(value.as_bytes())),
            None => None,
        }
    }

    /// The raw query.
    pub fn as_query(&self) -> (query: Option<&str>)
        ensures
            match query {
                Some(q) => self.query matches Some(own) && q@ == own@,
                None => self.query is None,
            },
    {
        match &self.query {
            Some(query) => Some(query.as_str()),
            None => None,
        }
    }

    pub fn to_content_type(&self) -> (value: Option<String>)
        ensures
            text::optional_text(value) == lossy_header(self.headers, "content-type"@),
    {
        self.header("content-type")
    }

    pub fn accepts(&self) -> (value: Option<String>)
        ensures
            text::optional_text(value) == lossy_header(self.headers, "accept"@),
    {
        self.header("accept")
    }

    pub fn referer(&self) -> (value: Option<String>)
        ensures
            text::optional_text(value) == lossy_header(self.headers, "referer"@),
    {
        self.header("referer")
    }
}

/// Reads a collected body as text, or says where it is not UTF-8.
pub fn try_into_string(body: Vec<u8>) -> (text: Result<String, String>)
    ensures
        match text {
            Ok(s) => vstd::utf8::valid_utf8(body@) && s@ == vstd::utf8::decode_utf8(body@),
            Err(fault) => !vstd::utf8::valid_utf8(body@) && fault@ == text::utf8_fault(body@),
        },
{
    string_from_utf8(body)
}

// ---------------------------------------------------------------------------
// Streaming
// ---------------------------------------------------------------------------
/// What the transport hands over next.
#[derive(Clone, Copy, Debug, PartialEq, Eq, Structural)]
pub enum Received {
    /// A chunk of so many bytes.
    Chunk(usize),
    /// The transport failed.
    Failure,
    /// There is no more.
    End,
}

/// What the stream yields next.
pub enum Emitted {
    /// The chunk that was received.
    Chunk,
    /// An error item with this message. The request is marked as too large, and
    /// nothing follows.
    Overflow(String),
    /// An error item with the cause of the failure. Nothing follows.
    Failure,
    /// The end.
    End,
}

/// A count of bytes with more behind it. It stops at the largest machine word.
pub open spec fn counted(so_far: usize, len: usize) -> usize {
    if so_far + len <= usize::MAX {
        (so_far + len) as usize
    } else {
        usize::MAX
    }
}

/// The body of a request, handed on chunk by chunk.
#[derive(Clone, Copy, Debug)]
pub struct BodyStream {
    limit: usize,
    so_far: usize,
    open: bool,
}

impl BodyStream {
    pub closed spec fn limit(self) -> usize {
        self.limit
    }

    /// How many bytes were handed on, as far as a machine word counts.
    pub closed spec fn forwarded(self) -> usize {
        self.so_far
    }

    /// Whether the transport is still read.
    pub closed spec fn open(self) -> bool {
        self.open
    }

    #[verifier::type_invariant]
    spec fn within_limit(self) -> bool {
        self.so_far <= self.limit
    }

    /// A stream under a limit.
    pub fn try_into_stream(limit: usize) -> (stream: BodyStream)
        ensures
            stream.limit() == limit,
            stream.forwarded() == 0,
            stream.open(),
    {
        BodyStream { limit, so_far: 0, open: true }
    }

    /// Whether the transport is still to be read. A stream that ended stays ended.
    pub fn is_open(&self) -> (open: bool)
        ensures
            open == self.open(),
            self.forwarded() <= self.limit(),
    {
        proof {
            use_type_invariant(self);
        }
        self.open
    }

    /// Takes what the transport handed over.
    pub fn advance(&mut self, received: Received) -> (emitted: Emitted)
        ensures
            final(self).limit() == old(self).limit(),
            old(self).forwarded() <= old(self).limit(),
            match emitted {
                Emitted::Chunk => {
                    &&& old(self).open()
                    &&& received matches Received::Chunk(len) && counted(
                        old(self).forwarded(),
                        len,
                    ) <= old(self).limit() && final(self).forwarded() == counted(
                        old(self).forwarded(),
                        len,
                    )
                    &&& final(self).open()
                },
                Emitted::Overflow(message) => {
                    &&& old(self).open()
                    &&& received matches Received::Chunk(len) && counted(
                        old(self).forwarded(),
                        len,
                    ) > old(self).limit()
                    &&& message@ == config::oversize_text(old(self).limit())
                    &&& final(self).forwarded() == old(self).forwarded()
                    &&& !final(self).open()
                },
                Emitted::Failure => {
                    &&& old(self).open()
                    &&& received == Received::Failure
                    &&& final(self).forwarded() == old(self).forwarded()
                    &&& !final(self).open()
                },
                Emitted::End => {
                    &&& !old(self).open() || received == Received::End
                    &&& final(self).forwarded() == old(self).forwarded()
                    &&& !final(self).open()
                },
            },
    {
        proof {
            use_type_invariant(&*self);
        }
        if !self.open {
            return Emitted::End;
        }
        match received {
            Received::Chunk(len) => {
                let next: usize = self.so_far.saturating_add(len);
                if next > self.limit {
                    self.open = false;
                    Emitted::Overflow(oversize_message(self.limit))
                } else {
                    self.so_far = next;
                    Emitted::Chunk
                }
            },
            Received::Failure => {
                self.open = false;
                Emitted::Failure
            },
            Received::End => {
                self.open = false;
                Emitted::End
            },
        }
    }
}

// ---------------------------------------------------------------------------
// Collecting
// ---------------------------------------------------------------------------
/// Why a body was not collected.
pub enum BodyError {
    /// It is over the limit; the message says so, and the request is marked.
    TooLarge(String),
    /// The transport failed, with this message.
    Transport(String),
}

/// Takes the next chunk of a body that is collected whole, or says why it cannot
/// be taken. `chunk` is what the transport handed over, or its failure.
pub fn try_into_bytes(
    collector: &mut PayloadCollector,
    limit: usize,
    chunk: Result<Vec<u8>, String>,
) -> (r: Result<(), BodyError>)
    requires
        old(collector).limit() == limit,
    ensures
        final(collector).limit() == limit,
        match (r, chunk) {
            (Ok(()), Ok(bytes)) => {
                &&& old(collector)@.len() + bytes@.len() <= limit
                &&& final(collector)@ == old(collector)@ + bytes@
            },
            (Err(BodyError::TooLarge(message)), Ok(bytes)) => {
                &&& old(collector)@.len() + bytes@.len() > limit
                &&& final(collector)@ == old(collector)@
                &&& message@ == config::oversize_text(limit)
            },
            (Err(BodyError::Transport(message)), Err(cause)) => {
                &&& message == cause
                &&& final(collector)@ == old(collector)@
            },
            _ => false,
        },
{
    match chunk {
        Ok(bytes) => match collector.push(bytes.as_slice()) {
            Ok(()) => Ok(()),
            Err(PayloadTooLarge) => Err(BodyError::TooLarge(oversize_message(limit))),
        },
        Err(cause) => Err(BodyError::Transport(cause)),
    }
}

// ---------------------------------------------------------------------------
// Laws
// ---------------------------------------------------------------------------
/// How many bytes of these chunks a stream hands on, and whether it is still open
/// behind them.
pub open spec fn streamed(chunks: Seq<usize>, limit: usize) -> (usize, bool)
    decreases chunks.len(),
{
    if chunks.len() == 0 {
        (0, true)
    } else {
        let (sum, open) = streamed(chunks.drop_last(), limit);
        if open && counted(sum, chunks.last()) <= limit {
            (counted(sum, chunks.last()), true)
        } else {
            (sum, false)
        }
    }
}

pub open spec fn total(chunks: Seq<usize>) -> int
    decreases chunks.len(),
{
    if chunks.len() == 0 {
        0
    } else {
        total(chunks.drop_last()) + chunks.last()
    }
}

/// A stream never hands on more than the limit, and hands on everything exactly if
/// the whole body is within the limit. A limit that no machine word exceeds is none.
pub proof fn streams_respect_the_limit(chunks: Seq<usize>, limit: usize)
    ensures
        streamed(chunks, limit).0 <= limit,
        streamed(chunks, limit).1 <==> total(chunks) <= limit || limit == usize::MAX,
        streamed(chunks, limit).1 && limit < usize::MAX ==> streamed(chunks, limit).0 == total(
            chunks,
        ),
        total(chunks) >= 0,
    decreases chunks.len(),
{
    if chunks.len() > 0 {
        streams_respect_the_limit(chunks.drop_last(), limit);
    }
}

/// A chunk that fits is handed on; the first that does not ends the stream with the
/// message about the limit, and so do a failure and the end. Nothing comes after that.
pub proof fn streams_end_once(
    stream: &mut BodyStream,
    later: &mut BodyStream,
    received: Received,
    next: Received,
    emitted: Emitted,
    last: Emitted,
)
    requires
        call_ensures(BodyStream::advance, (stream, received), emitted),
        *old(later) == *final(stream),
        call_ensures(BodyStream::advance, (later, next), last),
        old(stream).open(),
    ensures
        received matches Received::Chunk(len) ==> old(stream).forwarded() + len <= old(
            stream,
        ).limit() ==> emitted is Chunk && final(stream).forwarded() == old(stream).forwarded() + len,
        received matches Received::Chunk(len) ==> old(stream).forwarded() + len > old(
            stream,
        ).limit() && old(stream).limit() < usize::MAX ==> emitted is Overflow,
        received is Failure ==> emitted is Failure,
        received is End ==> emitted is End,
        !(emitted is Chunk) ==> last is End && final(later).forwarded() == old(stream).forwarded(),
        emitted is Chunk ==> received is Chunk,
{
}

/// A body that is UTF-8 is read as the text that it encodes, and any other is refused.
pub proof fn bodies_are_read_as_text(body: Vec<u8>, text: Result<String, String>)
    requires
        call_ensures(try_into_string, (body,), text),
    ensures
        text is Ok <==> vstd::utf8::valid_utf8(body@),
        text matches Ok(s) ==> vstd::utf8::encode_utf8(s@) == body@,
{
    if vstd::utf8::valid_utf8(body@) {
        vstd::utf8::decode_utf8_encode_utf8(body@);
    }
}

/// A field that a request does not have is absent, and one that it has is the text of its
/// first value, also where that is empty.
pub proof fn fields_are_read_as_text(request: &NtexRequest, name: &str, value: Option<String>)
    requires
        call_ensures(NtexRequest::header, (request, name), value),
    ensures
        value is Some <==> http::has_field(request.headers, name@),
        value is Some && vstd::utf8::valid_utf8(http::values_of(request.headers, name@)[0])
            ==> vstd::utf8::encode_utf8(value->0@) == http::values_of(request.headers, name@)[0],
{
    if value is Some && vstd::utf8::valid_utf8(http::values_of(request.headers, name@)[0]) {
        vstd::utf8::decode_utf8_encode_utf8(http::values_of(request.headers, name@)[0]);
    }
}

} // verus!
