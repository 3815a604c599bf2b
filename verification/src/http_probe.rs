//! Plain HTTP handling next to the websocket handshake.
//!
//! The websocket handshake consumes the stream and sends nothing back when the request is not a
//! websocket upgrade. To answer a plain `GET /`, the request head is read first; everything read
//! is then replayed to the websocket handshake through [`ReplayStream`].
use crate::http;
use crate::http::{RawHead, Request, Response};
use crate::text;
use crate::token::TOKEN_HEADER;
use vstd::prelude::*;
use vstd::slice::slice_subrange;
use vstd::utf8::*;

verus! {

pub const MAX_REQUEST_HEAD: usize = 16384;

pub const MAX_HEADERS: usize = 64;

/// How many bytes are read at a time while the request head is not complete.
pub const READ_CHUNK: usize = 2048;

// ---------------------------------------------------------------------------------------------
// Reading the request head
// ---------------------------------------------------------------------------------------------

/// The empty line that ends a request head, `\r\n\r\n`, stands at `i`.
pub open spec fn head_ends_at(head: Seq<u8>, i: int) -> bool {
    0 <= i && i + 4 <= head.len() && head[i] == 13 && head[i + 1] == 10 && head[i + 2] == 13
        && head[i + 3] == 10
}

/// The bytes hold the end of a request head.
pub open spec fn has_head_end(head: Seq<u8>) -> bool {
    exists|i: int| #[trigger] head_ends_at(head, i)
}

/// Whether the bytes hold the end of a request head.
fn find_head_end(head: &[u8]) -> (r: bool)
    ensures
        r == has_head_end(head@),
{
    let mut i: usize = 0;
    while head.len() >= 4 && i <= head.len() - 4
        invariant
            head@.len() >= 4 ==> i <= head@.len() - 3,
            forall|j: int| 0 <= j < i ==> !#[trigger] head_ends_at(head@, j),
        decreases head.len() - i,
    {
        if head[i] == 13 && head[i + 1] == 10 && head[i + 2] == 13 && head[i + 3] == 10 {
            assert(head_ends_at(head@, i as int));
            return true;
        }
        i += 1;
    }
    false
}

/// Collects a request head from a stream, chunk by chunk.
///
/// A websocket client sends nothing after the head until it gets the handshake response, so
/// stopping here never blocks a valid handshake. The bytes read are kept unmodified so they can
/// be replayed.
#[derive(Debug)]
pub struct HeadReader {
    pub head: Vec<u8>,
    /// The stream has ended.
    pub ended: bool,
}

/// What was read of a request head, and whether the stream has ended.
#[verifier::ext_equal]
pub struct HeadView {
    pub head: Seq<u8>,
    pub ended: bool,
}

impl View for HeadReader {
    type V = HeadView;

    open spec fn view(&self) -> HeadView {
        HeadView { head: self.head@, ended: self.ended }
    }
}

impl HeadView {
    /// Reading stops at the end of the head, at the end of the stream, or when the head is too
    /// long.
    pub open spec fn reading(self) -> bool {
        !self.ended && !has_head_end(self.head) && self.head.len() < MAX_REQUEST_HEAD
    }

    /// With one more chunk; nothing is read at the end of the stream.
    pub open spec fn received(self, chunk: Seq<u8>) -> HeadView {
        HeadView { head: self.head + chunk, ended: self.ended || chunk.len() == 0 }
    }

    /// What is read of a stream that gives `chunks`.
    pub open spec fn read(self, chunks: Seq<Seq<u8>>) -> HeadView
        decreases chunks.len(),
    {
        if chunks.len() == 0 || !self.reading() {
            self
        } else {
            self.received(chunks[0]).read(chunks.skip(1))
        }
    }
}

impl HeadReader {
    /// Nothing has been read.
    pub fn new() -> (r: HeadReader)
        ensures
            r@ == (HeadView { head: Seq::empty(), ended: false }),
            r@.reading(),
    {
        HeadReader { head: Vec::new(), ended: false }
    }

    /// Whether more is to be read.
    pub fn wants_more(&self) -> (r: bool)
        ensures
            r == self@.reading(),
    {
        !self.ended && self.head.len() < MAX_REQUEST_HEAD && !find_head_end(&self.head)
    }

    /// Takes what was read; nothing was read at the end of the stream.
    pub fn received(&mut self, chunk: &[u8])
        ensures
            final(self)@ == old(self)@.received(chunk@),
    {
        if chunk.len() == 0 {
            self.ended = true;
        } else {
            self.head.extend_from_slice(chunk);
        }
        assert(self.head@ =~= old(self).head@ + chunk@);
    }
}

/// All chunks, one after another.
pub open spec fn joined(chunks: Seq<Seq<u8>>) -> Seq<u8>
    decreases chunks.len(),
{
    if chunks.len() == 0 {
        Seq::empty()
    } else {
        chunks[0] + joined(chunks.skip(1))
    }
}

/// What is read is a prefix of what was sent, unmodified; it is no longer than the limit and the
/// last chunk; and reading has stopped, unless the stream has given all its chunks.
pub proof fn law_the_head_is_read_unmodified(v: HeadView, chunks: Seq<Seq<u8>>)
    requires
        v.head.len() < MAX_REQUEST_HEAD + READ_CHUNK,
        forall|i: int| 0 <= i < chunks.len() ==> (#[trigger] chunks[i]).len() <= READ_CHUNK,
    ensures
        v.read(chunks).head.is_prefix_of(v.head + joined(chunks)),
        v.read(chunks).head.len() < MAX_REQUEST_HEAD + READ_CHUNK,
        v.read(chunks).reading() ==> v.read(chunks).head == v.head + joined(chunks),
    decreases chunks.len(),
{
    if chunks.len() == 0 || !v.reading() {
        assert((v.head + joined(chunks)).take(v.head.len() as int) =~= v.head);
        if chunks.len() == 0 {
            assert(v.head + joined(chunks) =~= v.head);
        }
    } else {
        assert forall|i: int| 0 <= i < chunks.skip(1).len() implies (#[trigger] chunks.skip(
            1,
        )[i]).len() <= READ_CHUNK by {
            assert(chunks.skip(1)[i] == chunks[i + 1]);
        }
        law_the_head_is_read_unmodified(v.received(chunks[0]), chunks.skip(1));
        assert(v.head + chunks[0] + joined(chunks.skip(1)) =~= v.head + joined(chunks));
    }
}

// ---------------------------------------------------------------------------------------------
// Plain requests
// ---------------------------------------------------------------------------------------------

/// Where the token endpoints are.
pub const AUTH_PREFIX: &'static str = "/auth/";

/// A websocket upgrade.
pub open spec fn is_upgrade(request: http::RequestView) -> bool {
    match request.text("upgrade"@) {
        Some(value) => text::lowered(value) == text::lowered("websocket"@),
        None => false,
    }
}

/// A head asks for the health check: `GET` or `HEAD` of `/`.
pub open spec fn asks_for_health(raw: http::RawView) -> bool {
    &&& raw.0 == "GET"@ || raw.0 == "HEAD"@
    &&& http::target_path(raw.1) == seq!['/']
}

/// A head asks for a token endpoint: any method on a path under `/auth/`.
pub open spec fn asks_for_tokens(raw: http::RawView) -> bool {
    text::strip_prefix(http::target_path(raw.1), AUTH_PREFIX@) is Some
}

/// The request of a head that is not a websocket upgrade; `path` is the path of its target.
pub open spec fn plain_request(raw: http::RawView, path: Option<Seq<char>>) -> Option<
    http::RequestView,
> {
    match http::request_of(raw, path) {
        Some(request) => if is_upgrade(request) {
            None
        } else {
            Some(request)
        },
        None => None,
    }
}

/// The plain health check request that `head` holds.
pub open spec fn health_check_in(head: Seq<u8>) -> Option<http::RequestView> {
    match http::parsed_head(head, MAX_HEADERS as nat) {
        Some(raw) => if asks_for_health(raw) {
            plain_request(raw, http::uri_path(raw.1))
        } else {
            None
        },
        None => None,
    }
}

/// The plain request that `head` holds: a health check, or one for a token endpoint.
pub open spec fn plain_request_in(head: Seq<u8>) -> Option<http::RequestView> {
    match http::parsed_head(head, MAX_HEADERS as nat) {
        Some(raw) => if asks_for_health(raw) || asks_for_tokens(raw) {
            plain_request(raw, http::uri_path(raw.1))
        } else {
            None
        },
        None => None,
    }
}

/// A request, by its contents.
pub open spec fn viewed(r: Option<Request>) -> Option<http::RequestView> {
    match r {
        Some(request) => Some(request@),
        None => None,
    }
}

/// Whether a request is a websocket upgrade.
pub fn upgrade_requested(request: &Request) -> (r: bool)
    ensures
        r == is_upgrade(request@),
{
    match request.text("upgrade") {
        Some(value) => text::eq_ignore_ascii_case(value.as_str(), "websocket"),
        None => false,
    }
}

/// Whether a head asks for the health check.
pub fn health_requested(raw: &RawHead) -> (r: bool)
    ensures
        r == asks_for_health(raw@),
{
    let target = text::chars_of(raw.target.as_str());
    let path = http::path_of_target(&target);
    assert(path.len() == 1 && path@[0] == '/' ==> path@ =~= seq!['/']);
    (text::str_eq(raw.method.as_str(), "GET") || text::str_eq(raw.method.as_str(), "HEAD"))
        && path.len() == 1 && path[0] == '/'
}

/// Whether a head asks for a token endpoint.
pub fn tokens_requested(raw: &RawHead) -> (r: bool)
    ensures
        r == asks_for_tokens(raw@),
{
    let target = text::chars_of(raw.target.as_str());
    text::after_prefix(http::path_of_target(&target), AUTH_PREFIX).is_some()
}

/// The request of a head that is not a websocket upgrade; `path` is the path of its target.
pub fn plain_request_of(raw: &RawHead, path: Option<String>) -> (r: Option<Request>)
    ensures
        viewed(r) == plain_request(
            raw@,
            text::optional(path),
        ),
{
    match http::build_request(raw, path) {
        Some(request) => if upgrade_requested(&request) {
            None
        } else {
            Some(request)
        },
        None => None,
    }
}

/// The values of a parsed head are no longer than the head.
proof fn lemma_plain_fits(raw: http::RawView, path: Option<Seq<char>>, len: nat)
    requires
        crate::codec::within_limits(len),
        forall|i: int| 0 <= i < raw.2.len() ==> (#[trigger] raw.2[i]).1.len() <= len,
    ensures
        plain_request(raw, path) matches Some(request) ==> request.fits(),
{
    if let Some(request) = plain_request(raw, path) {
        assert forall|i: int| 0 <= i < request.headers.len() implies crate::codec::within_limits(
            (#[trigger] request.headers[i]).1.len(),
        ) by {
            assert(raw.2[i].1.len() <= len);
        }
    }
}

/// Returns the request when `head` is a complete plain (non-upgrade) `GET`/`HEAD /` request.
///
/// Anything else, including malformed or partial requests, returns `None` and is left to the
/// websocket handshake.
pub fn parse_plain_health_check(head: &[u8]) -> (r: Option<Request>)
    ensures
        viewed(r) == health_check_in(head@),
        r matches Some(request) ==> request@.path == seq!['/'],
{
    let raw = match http::parse_head(head, MAX_HEADERS) {
        Some(raw) => raw,
        None => return None,
    };
    if !health_requested(&raw) {
        return None;
    }
    proof {
        lemma_path_start(raw@.1);
    }
    plain_request_of(&raw, http::parse_uri_path(raw.target.as_str()))
}

/// A path of a target that is not empty is where the target starts.
proof fn lemma_path_start(target: Seq<char>)
    ensures
        http::target_path(target).len() <= target.len(),
        http::target_path(target).len() > 0 ==> target.len() > 0 && target[0]
            == http::target_path(target)[0],
{
    text::lemma_first(target, '?');
    text::lemma_first(target, '#');
}

/// Returns the request when `head` is a complete plain (non-upgrade) request that the router
/// answers itself: `GET`/`HEAD /`, or a path under `/auth/`.
///
/// Anything else, including malformed or partial requests, returns `None` and is left to the
/// websocket handshake.
pub fn parse_plain_request(head: &[u8]) -> (r: Option<Request>)
    ensures
        viewed(r) == plain_request_in(head@),
        r matches Some(request) ==> request@.path == seq!['/'] || text::strip_prefix(
            request@.path,
            AUTH_PREFIX@,
        ) is Some,
        crate::codec::within_limits(head@.len()) ==> (r matches Some(request) ==> request@.fits()),
{
    let raw = match http::parse_head(head, MAX_HEADERS) {
        Some(raw) => raw,
        None => return None,
    };
    if !health_requested(&raw) && !tokens_requested(&raw) {
        return None;
    }
    proof {
        lemma_path_start(raw@.1);
        reveal_strlit("/auth/");
        if asks_for_tokens(raw@) {
            assert(http::target_path(raw@.1).take(AUTH_PREFIX@.len() as int)[0]
                == http::target_path(raw@.1)[0]);
        }
    }
    let path = http::parse_uri_path(raw.target.as_str());
    proof {
        if crate::codec::within_limits(head@.len()) {
            assert forall|i: int| 0 <= i < raw@.2.len() implies (#[trigger] raw@.2[i]).1.len()
                <= head@.len() by {
                assert(raw.headers@[i].1@.len() <= head@.len());
            }
            lemma_plain_fits(
                raw@,
                text::optional(path),
                head@.len(),
            );
        }
    }
    plain_request_of(&raw, path)
}

/// Every plain health check is a plain request, and is the same one.
pub proof fn law_a_health_check_is_a_plain_request(head: Seq<u8>)
    requires
        health_check_in(head) is Some,
    ensures
        plain_request_in(head) == health_check_in(head),
{
}

/// A websocket upgrade is never taken for a plain request.
pub proof fn law_upgrades_are_left_to_the_handshake(raw: http::RawView, path: Option<Seq<char>>)
    ensures
        plain_request(raw, path) matches Some(request) ==> !is_upgrade(request),
{
}

// ---------------------------------------------------------------------------------------------
// The health check's answer
// ---------------------------------------------------------------------------------------------

/// A plain text response.
pub open spec fn text_answer(status: u16, message: Seq<char>) -> http::ResponseView {
    (http::ResponseView { status, headers: Seq::empty(), body: Some(message) }).with(
        "content-type"@,
        "text/plain; charset=utf-8"@,
    )
}

/// A plain text response.
pub fn text_response(status: u16, message: &str) -> (r: Response)
    ensures
        r@ == text_answer(status, message@),
{
    Response::new(status, message).with("content-type", "text/plain; charset=utf-8")
}

/// Builds the `200 OK` response to a plain health check request, carrying `token` in the
/// [`TOKEN_HEADER`] header.
pub fn health_check_response(message: &str, token: &str) -> (r: Response)
    requires
        forall|i: int|
            0 <= i < encode_utf8(token@).len() ==> http::is_value_byte(
                #[trigger] encode_utf8(token@)[i],
            ),
    ensures
        r@ == text_answer(200, message@).with(TOKEN_HEADER@, token@),
{
    text_response(200, message).with(TOKEN_HEADER, token)
}

// ---------------------------------------------------------------------------------------------
// Replay
// ---------------------------------------------------------------------------------------------

/// A stream that yields `prefix` before reading from `inner`; writes go straight to `inner`.
pub struct ReplayStream<S> {
    pub prefix: Vec<u8>,
    pub position: usize,
    pub inner: S,
}

impl<S> ReplayStream<S> {
    /// The position is in the prefix, or at its end.
    pub open spec fn wf(self) -> bool {
        self.position <= self.prefix@.len()
    }

    /// What is still to be replayed.
    pub open spec fn pending(self) -> Seq<u8> {
        self.prefix@.skip(self.position as int)
    }

    pub fn new(prefix: Vec<u8>, inner: S) -> (r: Self)
        ensures
            r.wf(),
            r.pending() == prefix@,
            r.inner == inner,
    {
        let r = ReplayStream { prefix, position: 0, inner };
        assert(r.pending() =~= prefix@);
        r
    }

    /// What a read into a buffer with room for `room` bytes gives; nothing when it is to be read
    /// from `inner`.
    pub fn replay(&mut self, room: usize) -> (r: Option<Vec<u8>>)
        requires
            old(self).wf(),
        ensures
            final(self).wf(),
            final(self).inner == old(self).inner,
            match r {
                Some(bytes) => old(self).pending().len() > 0 && bytes@ == old(self).pending().take(
                    replayed_len(old(self).pending(), room as nat),
                ) && final(self).pending() == old(self).pending().skip(
                    replayed_len(old(self).pending(), room as nat),
                ),
                None => old(self).pending().len() == 0 && *final(self) == *old(self),
            },
    {
        if self.position < self.prefix.len() {
            let left: usize = self.prefix.len() - self.position;
            let n: usize = if room <= left {
                room
            } else {
                left
            };
            let part = slice_subrange(self.prefix.as_slice(), self.position, self.position + n);
            let bytes = vstd::slice::slice_to_vec(part);
            self.position = self.position + n;
            assert(bytes@ =~= old(self).pending().take(n as int));
            assert(self.pending() =~= old(self).pending().skip(n as int));
            Some(bytes)
        } else {
            None
        }
    }
}

/// How much a read gives of what is pending.
pub open spec fn replayed_len(pending: Seq<u8>, room: nat) -> int {
    if room <= pending.len() {
        room as int
    } else {
        pending.len() as int
    }
}

/// What reads into buffers with the given room give, one after another, and what is then left.
pub open spec fn replayed(pending: Seq<u8>, rooms: Seq<nat>) -> (Seq<u8>, Seq<u8>)
    decreases rooms.len(),
{
    if rooms.len() == 0 {
        (Seq::empty(), pending)
    } else {
        let n = replayed_len(pending, rooms[0]);
        let (read, left) = replayed(pending.skip(n), rooms.skip(1));
        (pending.take(n) + read, left)
    }
}

/// The prefix is replayed in order, unmodified and without gaps, whatever the sizes of the
/// reads.
pub proof fn law_the_prefix_is_replayed(pending: Seq<u8>, rooms: Seq<nat>)
    ensures
        replayed(pending, rooms).0 + replayed(pending, rooms).1 == pending,
    decreases rooms.len(),
{
    if rooms.len() > 0 {
        let n = replayed_len(pending, rooms[0]);
        law_the_prefix_is_replayed(pending.skip(n), rooms.skip(1));
        let (read, left) = replayed(pending.skip(n), rooms.skip(1));
        assert((pending.take(n) + read) + left =~= pending.take(n) + (read + left));
        assert(pending.take(n) + pending.skip(n) =~= pending);
    } else {
        assert(Seq::<u8>::empty() + pending =~= pending);
    }
}

} // verus!
