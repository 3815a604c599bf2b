//! What a connection is served: the health check, the token endpoints, or an upstream.
//!
//! A request to the health check path only checks that the service is reachable (and that the
//! caller passes authentication), with no upstream. A websocket request completes the handshake,
//! receives a text message and is closed; a plain HTTP request gets a `200 OK` with the same
//! message as its body. Any other websocket request names an upstream in its path.
//!
//! The functions here decide; reading, writing and connecting is left to their caller, who hands
//! in what happened and carries out what is to be done.
use crate::auth;
use crate::auth::{AuthConfig, AuthView};
use crate::client_addr;
use crate::client_addr::{ClientAddr, TrustedProxies};
use crate::clock;
use crate::codec;
use crate::http;
use crate::http::{Request, Response};
use crate::http_probe;
use crate::ip::{IpAddr, SocketAddr};
use crate::target;
use crate::target::{Target, TargetError};
use crate::text;
use crate::token;
use crate::token_api;
use crate::token_api::{Moment, MomentView};
use vstd::prelude::*;
use vstd::utf8::*;

verus! {

/// Large enough for the maximum possible UDP payload (65507 bytes over IPv4/IPv6).
pub const UDP_DATAGRAM_BUFFER: usize = 65536;

pub const HEALTH_CHECK_PATH: &'static str = "/";

pub const HEALTH_CHECK_MESSAGE: &'static str =
    "ok: ws2tcp-router 0.1.12 is available; health check only, no upstream connected";

pub const HEALTH_CHECK_CLOSE_REASON: &'static str = "health check";

pub const UDP_PREFIX: &'static str = "/udp:";

pub const BAD_PATH_MESSAGE: &'static str =
    "path must be /tcp:<host>:<port> or /udp:<host>:<port>, with IPv6 hosts formatted as [host]:port";

// ---------------------------------------------------------------------------------------------
// Routes
// ---------------------------------------------------------------------------------------------

/// How an upstream is reached.
#[derive(Debug, Clone, Copy, PartialEq, Eq, Structural)]
pub enum Protocol {
    Tcp,
    Udp,
}

/// What a websocket request asks for.
#[derive(Debug, Clone, PartialEq, Eq)]
pub enum Route {
    HealthCheck,
    Proxy { protocol: Protocol, target: Target },
}

/// What a websocket request asks for.
pub enum RouteView {
    HealthCheck,
    Proxy { protocol: Protocol, target: target::TargetView },
}

impl View for Route {
    type V = RouteView;

    open spec fn view(&self) -> RouteView {
        match self {
            Route::HealthCheck => RouteView::HealthCheck,
            Route::Proxy { protocol, target } => RouteView::Proxy {
                protocol: *protocol,
                target: target@,
            },
        }
    }
}

/// What a path asks for.
pub open spec fn route_of(path: Seq<char>) -> Result<RouteView, target::TargetErrorView> {
    if path == HEALTH_CHECK_PATH@ {
        Ok(RouteView::HealthCheck)
    } else {
        match text::strip_prefix(path, UDP_PREFIX@) {
            Some(addr) => match target::target_of_addr(addr) {
                Ok(target) => Ok(RouteView::Proxy { protocol: Protocol::Udp, target }),
                Err(e) => Err(e),
            },
            None => match target::target_of_path(path) {
                Ok(target) => Ok(RouteView::Proxy { protocol: Protocol::Tcp, target }),
                Err(e) => Err(e),
            },
        }
    }
}

/// What a path asks for.
pub fn parse_route(path: &str) -> (r: Result<Route, TargetError>)
    ensures
        match r {
            Ok(route) => route_of(path@) == Ok::<RouteView, target::TargetErrorView>(route@),
            Err(e) => route_of(path@) == Err::<RouteView, target::TargetErrorView>(e@),
        },
{
    if text::str_eq(path, HEALTH_CHECK_PATH) {
        return Ok(Route::HealthCheck);
    }
    let chars = text::chars_of(path);
    match text::after_prefix(&chars, UDP_PREFIX) {
        Some(addr) => match target::parse_target_addr(text::string_of(addr).as_str()) {
            Ok(target) => Ok(Route::Proxy { protocol: Protocol::Udp, target }),
            Err(e) => Err(e),
        },
        None => match target::parse_target(path) {
            Ok(target) => Ok(Route::Proxy { protocol: Protocol::Tcp, target }),
            Err(e) => Err(e),
        },
    }
}

/// The refusal of a path that is no route.
pub open spec fn bad_path() -> http::ResponseView {
    http::ResponseView { status: 400, headers: Seq::empty(), body: Some(BAD_PATH_MESSAGE@) }
}

/// What a websocket request asks for; else the refusal.
pub fn capture_requested_target(request: &Request) -> (r: Result<Route, Response>)
    ensures
        match r {
            Ok(route) => route_of(request@.path) == Ok::<RouteView, target::TargetErrorView>(
                route@,
            ),
            Err(response) => route_of(request@.path) is Err && response@ == bad_path(),
        },
{
    match parse_route(request.path.as_str()) {
        Ok(route) => Ok(route),
        Err(_) => Err(Response::new(400, BAD_PATH_MESSAGE)),
    }
}

/// The user agent of a request.
pub open spec fn user_agent_of(request: http::RequestView) -> Seq<char> {
    match request.text("user-agent"@) {
        Some(agent) => agent,
        None => "-"@,
    }
}

/// The user agent of a request.
pub fn request_user_agent(request: &Request) -> (r: String)
    ensures
        r@ == user_agent_of(request@),
{
    match request.text("user-agent") {
        Some(agent) => agent,
        None => "-".to_owned(),
    }
}

// ---------------------------------------------------------------------------------------------
// Plain requests
// ---------------------------------------------------------------------------------------------

/// The answer to a plain request, and the authentication configuration after it.
pub open spec fn plain_answer(
    request: http::RequestView,
    auth: Option<AuthView>,
    m: MomentView,
) -> (Option<AuthView>, http::ResponseView) {
    if request.path == HEALTH_CHECK_PATH@ {
        (
            auth,
            match auth::authorized(request, auth, m.wall) {
                Ok(_) => http_probe::text_answer(200, HEALTH_CHECK_MESSAGE@),
                Err(refusal) => refusal,
            },
        )
    } else {
        token_api::handled(auth, request, m)
    }
}

/// The answer to a plain request, given what the clocks show and what is drawn for it.
pub fn answer_plain_request(request: &Request, auth: &mut Option<AuthConfig>, m: Moment) -> (r:
    Response)
    requires
        request@.fits(),
        *old(auth) matches Some(a) ==> a.wf(),
        m@.fresh matches Some(token) ==> token::token_fits(token),
    ensures
        *final(auth) matches Some(a) ==> a.wf(),
        (token_api::owned_auth(*final(auth)), r@) == plain_answer(
            request@,
            token_api::owned_auth(*old(auth)),
            m@,
        ),
{
    if text::str_eq(request.path.as_str(), HEALTH_CHECK_PATH) {
        match auth::authorize_request_at(request, auth.as_ref(), m.wall) {
            Ok(_) => http_probe::text_response(200, HEALTH_CHECK_MESSAGE),
            Err(response) => response,
        }
    } else {
        token_api::handle_auth_request_at(request, auth, m)
    }
}

/// What is to be done with a connection whose request head was read.
#[derive(Debug, PartialEq, Eq)]
pub enum Opening {
    /// Write the answer and close the connection.
    Answer { text: String },
    /// Go on with the websocket handshake, which must still see the head that was read.
    Handshake,
}

/// What is to be done with a connection, by its contents.
pub open spec fn opening_view(opening: Opening) -> Option<Seq<char>> {
    match opening {
        Opening::Answer { text } => Some(text@),
        Opening::Handshake => None,
    }
}

/// The written answer to the plain request `request`, where the head held one, and the
/// authentication configuration after it.
pub open spec fn opened(
    request: Option<http::RequestView>,
    auth: Option<AuthView>,
    m: MomentView,
) -> (Option<AuthView>, Option<Seq<char>>) {
    match request {
        Some(request) => {
            let (after, response) = plain_answer(request, auth, m);
            (after, Some(response.encoded(request.method != "HEAD"@)))
        },
        None => (auth, None),
    }
}

/// Decides what is done with a connection from `peer` whose request head was read, given what the
/// clocks show and what is drawn; also gives the address that it is reported under. From there on
/// that is the client's: behind a trusted reverse proxy the one in `X-Forwarded-For`, not the
/// proxy's.
pub fn handle_connection_at(
    head: &[u8],
    peer: SocketAddr,
    auth: &mut Option<AuthConfig>,
    trusted_proxies: &TrustedProxies,
    m: Moment,
) -> (r: (ClientAddr, Opening))
    requires
        codec::within_limits(head@.len()),
        trusted_proxies.wf(),
        *old(auth) matches Some(a) ==> a.wf(),
        m@.fresh matches Some(token) ==> token::token_fits(token),
    ensures
        *final(auth) matches Some(a) ==> a.wf(),
        r.0.peer == peer,
        r.0.forwarded == (if client_addr::is_trusted(trusted_proxies.ranges@, peer.ip) {
            client_addr::forwarded_in(
                trusted_proxies.ranges@,
                http::parsed_head(head@, client_addr::MAX_HEADERS as nat),
            )
        } else {
            None
        }),
        (token_api::owned_auth(*final(auth)), opening_view(r.1)) == opened(
            http_probe::plain_request_in(head@),
            token_api::owned_auth(*old(auth)),
            m@,
        ),
        http_probe::plain_request_in(head@) matches Some(request) ==> http::is_spelled_out(
            plain_answer(request, token_api::owned_auth(*old(auth)), m@).1.status,
        ),
{
    let client = trusted_proxies.client_addr(peer, head);
    match http_probe::parse_plain_request(head) {
        Some(request) => {
            let response = answer_plain_request(&request, auth, m);
            let include_body = !text::str_eq(request.method.as_str(), "HEAD");
            (client, Opening::Answer { text: http::encode_response(&response, include_body) })
        },
        None => (client, Opening::Handshake),
    }
}

/// Decides what is done with a connection from `peer` whose request head was read; also gives the
/// address that it is reported under.
pub fn handle_connection(
    head: &[u8],
    peer: SocketAddr,
    auth: &mut Option<AuthConfig>,
    trusted_proxies: &TrustedProxies,
) -> (r: (ClientAddr, Opening))
    requires
        codec::within_limits(head@.len()),
        trusted_proxies.wf(),
        *old(auth) matches Some(a) ==> a.wf(),
    ensures
        *final(auth) matches Some(a) ==> a.wf(),
        r.0.peer == peer,
        r.0.forwarded == (if client_addr::is_trusted(trusted_proxies.ranges@, peer.ip) {
            client_addr::forwarded_in(
                trusted_proxies.ranges@,
                http::parsed_head(head@, client_addr::MAX_HEADERS as nat),
            )
        } else {
            None
        }),
        exists|m: MomentView|
            {
                &&& (token_api::owned_auth(*final(auth)), opening_view(r.1)) == #[trigger] opened(
                    http_probe::plain_request_in(head@),
                    token_api::owned_auth(*old(auth)),
                    m,
                )
                &&& m.fresh matches Some(token) ==> token::is_drawn(token)
                &&& token_api::is_moment(token_api::owned_auth(*old(auth)), m)
                &&& http_probe::plain_request_in(head@) matches Some(request)
                    ==> http::is_spelled_out(
                    plain_answer(request, token_api::owned_auth(*old(auth)), m).1.status,
                )
            },
{
    let m = match auth {
        Some(a) => match &a.tokens {
            Some(tokens) => Moment::draw(tokens),
            None => Moment { now: 0, wall: clock::unix_now(), family: None, fresh: None },
        },
        None => Moment { now: 0, wall: clock::unix_now(), family: None, fresh: None },
    };
    let ghost drawn = m@;
    let r = handle_connection_at(head, peer, auth, trusted_proxies, m);
    assert((token_api::owned_auth(*auth), opening_view(r.1)) == opened(
        http_probe::plain_request_in(head@),
        token_api::owned_auth(*old(auth)),
        drawn,
    ));
    r
}

// ---------------------------------------------------------------------------------------------
// The websocket handshake
// ---------------------------------------------------------------------------------------------

/// An accepted websocket request.
#[derive(Debug, PartialEq, Eq)]
pub struct Session {
    pub route: Route,
    pub auth_user: String,
    pub user_agent: String,
}

/// What an accepted websocket request holds.
pub struct SessionView {
    pub route: RouteView,
    pub auth_user: Seq<char>,
    pub user_agent: Seq<char>,
}

impl View for Session {
    type V = SessionView;

    open spec fn view(&self) -> SessionView {
        SessionView {
            route: self.route@,
            auth_user: self.auth_user@,
            user_agent: self.user_agent@,
        }
    }
}

/// What a websocket request is granted, when the wall clock shows `wall`; else the refusal. The
/// caller is checked before the path is.
pub open spec fn session_of(
    request: http::RequestView,
    auth: Option<AuthView>,
    wall: u64,
) -> Result<SessionView, http::ResponseView> {
    match auth::authorized(request, auth, wall) {
        Err(refusal) => Err(refusal),
        Ok(auth_user) => match route_of(request.path) {
            Err(_) => Err(bad_path()),
            Ok(route) => Ok(
                SessionView { route, auth_user, user_agent: user_agent_of(request) },
            ),
        },
    }
}

/// A session, by its contents.
pub open spec fn session_view(r: Result<Session, Response>) -> Result<
    SessionView,
    http::ResponseView,
> {
    match r {
        Ok(session) => Ok(session@),
        Err(response) => Err(response@),
    }
}

/// What a websocket request is granted, when the wall clock shows `wall`; else the refusal.
pub fn accept_request_at(request: &Request, auth: Option<&AuthConfig>, wall: u64) -> (r: Result<
    Session,
    Response,
>)
    requires
        request@.fits(),
        auth matches Some(auth) ==> auth.wf(),
    ensures
        session_view(r) == session_of(request@, auth::optional_auth(auth), wall),
{
    let user_agent = request_user_agent(request);
    let auth_user = match auth::authorize_request_at(request, auth, wall) {
        Ok(user) => user,
        Err(response) => return Err(response),
    };
    match capture_requested_target(request) {
        Ok(route) => Ok(Session { route, auth_user, user_agent }),
        Err(response) => Err(response),
    }
}

/// What a websocket request is granted; else the refusal.
pub fn accept_request(request: &Request, auth: Option<&AuthConfig>) -> (r: Result<
    Session,
    Response,
>)
    requires
        request@.fits(),
        auth matches Some(auth) ==> auth.wf(),
    ensures
        exists|wall: u64|
            session_view(r) == #[trigger] session_of(request@, auth::optional_auth(auth), wall)
                && clock::is_wall(wall),
{
    let wall: u64 = clock::unix_now();
    accept_request_at(request, auth, wall)
}

/// The health check passes exactly for the callers that may use the router, over plain HTTP as
/// over a websocket, and never reaches an upstream.
pub proof fn law_the_health_check_needs_authentication(
    request: http::RequestView,
    auth: Option<AuthView>,
    m: MomentView,
)
    requires
        request.path == HEALTH_CHECK_PATH@,
    ensures
        plain_answer(request, auth, m).0 == auth,
        match auth::authorized(request, auth, m.wall) {
            Ok(_) => plain_answer(request, auth, m).1 == http_probe::text_answer(
                200,
                HEALTH_CHECK_MESSAGE@,
            ) && (session_of(request, auth, m.wall) matches Ok(session) && session.route
                == RouteView::HealthCheck),
            Err(refusal) => plain_answer(request, auth, m).1 == refusal && session_of(
                request,
                auth,
                m.wall,
            ) == Err::<SessionView, http::ResponseView>(refusal),
        },
{
}

/// A caller that is not authorized learns nothing of the path: it is refused the same whatever it
/// asks for.
pub proof fn law_the_caller_is_checked_before_the_path(
    request: http::RequestView,
    auth: Option<AuthView>,
    wall: u64,
)
    requires
        auth::authorized(request, auth, wall) is Err,
    ensures
        session_of(request, auth, wall) == Err::<SessionView, http::ResponseView>(
            auth::authorized(request, auth, wall)->Err_0,
        ),
{
}

/// The first line of every plain answer is spelled out: it is one of the codes that have a phrase
/// of their own.
pub proof fn law_plain_answers_have_a_phrase(
    request: http::RequestView,
    auth: Option<AuthView>,
    m: MomentView,
)
    ensures
        http::router_phrase(plain_answer(request, auth, m).1.status) is Some,
{
}

/// The answer to `HEAD` is that to `GET` without the body.
pub proof fn law_head_omits_the_body(response: http::ResponseView)
    ensures
        response.encoded(true) == response.encoded(false) + response.body_text(),
{
    assert(response.encoded(false) =~= http::status_line(response.status) + http::header_lines(
        response.headers,
    ) + response.length_line() + http::head_end());
}

// ---------------------------------------------------------------------------------------------
// Proxying
// ---------------------------------------------------------------------------------------------

/// What came from the websocket.
#[derive(Debug, PartialEq, Eq)]
pub enum FromClient {
    Binary { bytes: Vec<u8> },
    Text { text: String },
    Ping { payload: Vec<u8> },
    Pong,
    Frame,
    Close,
    /// The frame could not be read.
    Failed,
    /// The stream has ended.
    Ended,
    /// Nothing came for too long.
    Idle,
}

/// What came from the upstream.
#[derive(Debug, PartialEq, Eq)]
pub enum FromUpstream {
    /// The bytes that were read; none at the end of a TCP stream.
    Bytes { bytes: Vec<u8> },
    /// Nothing could be read.
    Failed,
    /// Nothing came for too long.
    Idle,
}

/// What is to be done.
#[derive(Debug, PartialEq, Eq)]
pub enum Relay {
    /// Write or send the bytes to the upstream.
    ToUpstream { bytes: Vec<u8> },
    /// Send the bytes as one binary frame to the websocket.
    ToClient { bytes: Vec<u8> },
    /// Answer a ping.
    Pong { payload: Vec<u8> },
    /// Nothing, and go on.
    Nothing,
    /// Shut the upstream's writer down, and end.
    ShutdownUpstream,
    /// Send a close frame where that is still possible, and end.
    CloseClient,
    /// End.
    End,
    /// End with an error: the websocket could not be read.
    ClientFailed,
    /// End with an error: the upstream could not be read.
    UpstreamFailed,
}

/// What is to be done, by its contents.
pub enum RelayView {
    ToUpstream { bytes: Seq<u8> },
    ToClient { bytes: Seq<u8> },
    Pong { payload: Seq<u8> },
    Nothing,
    ShutdownUpstream,
    CloseClient,
    End,
    ClientFailed,
    UpstreamFailed,
}

impl View for Relay {
    type V = RelayView;

    open spec fn view(&self) -> RelayView {
        match self {
            Relay::ToUpstream { bytes } => RelayView::ToUpstream { bytes: bytes@ },
            Relay::ToClient { bytes } => RelayView::ToClient { bytes: bytes@ },
            Relay::Pong { payload } => RelayView::Pong { payload: payload@ },
            Relay::Nothing => RelayView::Nothing,
            Relay::ShutdownUpstream => RelayView::ShutdownUpstream,
            Relay::CloseClient => RelayView::CloseClient,
            Relay::End => RelayView::End,
            Relay::ClientFailed => RelayView::ClientFailed,
            Relay::UpstreamFailed => RelayView::UpstreamFailed,
        }
    }
}

impl RelayView {
    /// The session goes on after this.
    pub open spec fn goes_on(self) -> bool {
        match self {
            RelayView::ToUpstream { .. } => true,
            RelayView::ToClient { .. } => true,
            RelayView::Pong { .. } => true,
            RelayView::Nothing => true,
            _ => false,
        }
    }
}

impl Relay {
    /// Whether the session goes on after this.
    pub fn continues(&self) -> (r: bool)
        ensures
            r == self@.goes_on(),
    {
        match self {
            Relay::ToUpstream { .. } => true,
            Relay::ToClient { .. } => true,
            Relay::Pong { .. } => true,
            Relay::Nothing => true,
            _ => false,
        }
    }
}

/// The bytes that a frame carries to the upstream: those of a binary frame, and the UTF-8 bytes
/// of a text frame.
pub open spec fn frame_payload(message: FromClient) -> Option<Seq<u8>> {
    match message {
        FromClient::Binary { bytes } => Some(bytes@),
        FromClient::Text { text } => Some(encode_utf8(text@)),
        _ => None,
    }
}

/// What a frame asks for, over TCP as over UDP; `end` is what the end of the websocket asks for.
pub open spec fn client_relay(message: FromClient, end: RelayView) -> RelayView {
    match message {
        FromClient::Binary { bytes } => RelayView::ToUpstream { bytes: bytes@ },
        FromClient::Text { text } => RelayView::ToUpstream { bytes: encode_utf8(text@) },
        FromClient::Ping { payload } => RelayView::Pong { payload: payload@ },
        FromClient::Pong => RelayView::Nothing,
        FromClient::Frame => RelayView::Nothing,
        FromClient::Close => end,
        FromClient::Failed => RelayView::ClientFailed,
        FromClient::Ended => end,
        FromClient::Idle => RelayView::CloseClient,
    }
}

/// What TCP bytes ask for; there are none at the end of the stream.
pub open spec fn tcp_relay(event: FromUpstream) -> RelayView {
    match event {
        FromUpstream::Bytes { bytes } => if bytes@.len() == 0 {
            RelayView::CloseClient
        } else {
            RelayView::ToClient { bytes: bytes@ }
        },
        FromUpstream::Failed => RelayView::UpstreamFailed,
        FromUpstream::Idle => RelayView::CloseClient,
    }
}

/// What a datagram asks for; it may be empty.
pub open spec fn udp_relay(event: FromUpstream) -> RelayView {
    match event {
        FromUpstream::Bytes { bytes } => RelayView::ToClient { bytes: bytes@ },
        FromUpstream::Failed => RelayView::UpstreamFailed,
        FromUpstream::Idle => RelayView::CloseClient,
    }
}

/// What came, from either side.
#[derive(Debug, PartialEq, Eq)]
pub enum Event {
    Client { message: FromClient },
    Upstream { event: FromUpstream },
}

/// What an event asks for in a TCP session.
pub open spec fn tcp_step(event: Event) -> RelayView {
    match event {
        Event::Client { message } => client_relay(message, RelayView::ShutdownUpstream),
        Event::Upstream { event } => tcp_relay(event),
    }
}

/// What an event asks for in a UDP session.
pub open spec fn udp_step(event: Event) -> RelayView {
    match event {
        Event::Client { message } => client_relay(message, RelayView::End),
        Event::Upstream { event } => udp_relay(event),
    }
}

/// What a frame asks for, over TCP as over UDP.
fn relay_client(message: FromClient, end: Relay) -> (r: Relay)
    ensures
        r@ == client_relay(message, end@),
{
    match message {
        FromClient::Binary { bytes } => Relay::ToUpstream { bytes },
        FromClient::Text { text } => Relay::ToUpstream {
            bytes: vstd::slice::slice_to_vec(codec::utf8_bytes(text.as_str())),
        },
        FromClient::Ping { payload } => Relay::Pong { payload },
        FromClient::Pong => Relay::Nothing,
        FromClient::Frame => Relay::Nothing,
        FromClient::Close => end,
        FromClient::Failed => Relay::ClientFailed,
        FromClient::Ended => end,
        FromClient::Idle => Relay::CloseClient,
    }
}

/// What an event asks for in a session with a TCP upstream.
pub fn proxy_tcp(event: Event) -> (r: Relay)
    ensures
        r@ == tcp_step(event),
{
    match event {
        Event::Client { message } => relay_client(message, Relay::ShutdownUpstream),
        Event::Upstream { event } => match event {
            FromUpstream::Bytes { bytes } => if bytes.len() == 0 {
                Relay::CloseClient
            } else {
                Relay::ToClient { bytes }
            },
            FromUpstream::Failed => Relay::UpstreamFailed,
            FromUpstream::Idle => Relay::CloseClient,
        },
    }
}

/// What an event asks for in a session with a UDP upstream.
pub fn proxy_udp(event: Event) -> (r: Relay)
    ensures
        r@ == udp_step(event),
{
    match event {
        Event::Client { message } => relay_client(message, Relay::End),
        Event::Upstream { event } => match event {
            FromUpstream::Bytes { bytes } => Relay::ToClient { bytes },
            FromUpstream::Failed => Relay::UpstreamFailed,
            FromUpstream::Idle => Relay::CloseClient,
        },
    }
}

/// The local address that a UDP socket for an upstream is bound to.
pub fn local_bind(upstream: &SocketAddr) -> (r: &'static str)
    ensures
        r@ == (if upstream.ip is V6 {
            "[::]:0"@
        } else {
            "0.0.0.0:0"@
        }),
{
    match upstream.ip {
        IpAddr::V6(_) => "[::]:0",
        IpAddr::V4(_) => "0.0.0.0:0",
    }
}

/// The actions of a session, up to and with the one that ends it.
pub open spec fn session_actions(steps: Seq<RelayView>) -> Seq<RelayView>
    decreases steps.len(),
{
    if steps.len() == 0 {
        Seq::empty()
    } else if steps[0].goes_on() {
        seq![steps[0]] + session_actions(steps.skip(1))
    } else {
        seq![steps[0]]
    }
}

/// The bytes that actions carry to the upstream, one after another.
pub open spec fn upstream_bytes(actions: Seq<RelayView>) -> Seq<u8>
    decreases actions.len(),
{
    if actions.len() == 0 {
        Seq::empty()
    } else {
        (match actions[0] {
            RelayView::ToUpstream { bytes } => bytes,
            _ => Seq::empty(),
        }) + upstream_bytes(actions.skip(1))
    }
}

/// The bytes that actions carry to the websocket, one after another.
pub open spec fn client_bytes(actions: Seq<RelayView>) -> Seq<u8>
    decreases actions.len(),
{
    if actions.len() == 0 {
        Seq::empty()
    } else {
        (match actions[0] {
            RelayView::ToClient { bytes } => bytes,
            _ => Seq::empty(),
        }) + client_bytes(actions.skip(1))
    }
}

/// The event is the end of the websocket or of the upstream, a failure of either, or that nothing
/// came for too long.
pub open spec fn is_end(event: Event) -> bool {
    match event {
        Event::Client { message: FromClient::Close } => true,
        Event::Client { message: FromClient::Failed } => true,
        Event::Client { message: FromClient::Ended } => true,
        Event::Client { message: FromClient::Idle } => true,
        Event::Upstream { event: FromUpstream::Failed } => true,
        Event::Upstream { event: FromUpstream::Idle } => true,
        _ => false,
    }
}

/// The event is the end of a TCP session: a TCP stream also ends where nothing is read.
pub open spec fn is_tcp_end(event: Event) -> bool {
    is_end(event) || (event matches Event::Upstream { event: FromUpstream::Bytes { bytes } }
        && bytes@.len() == 0)
}

/// The bytes that the websocket sends before the end of a TCP session, one after another.
pub open spec fn sent_by_client(events: Seq<Event>) -> Seq<u8>
    decreases events.len(),
{
    if events.len() == 0 || is_tcp_end(events[0]) {
        Seq::empty()
    } else {
        (match events[0] {
            Event::Client { message } => match frame_payload(message) {
                Some(bytes) => bytes,
                None => Seq::empty(),
            },
            _ => Seq::empty(),
        }) + sent_by_client(events.skip(1))
    }
}

/// The bytes that the upstream sends before the end of a TCP session, one after another.
pub open spec fn sent_by_upstream(events: Seq<Event>) -> Seq<u8>
    decreases events.len(),
{
    if events.len() == 0 || is_tcp_end(events[0]) {
        Seq::empty()
    } else {
        (match events[0] {
            Event::Upstream { event: FromUpstream::Bytes { bytes } } => bytes@,
            _ => Seq::empty(),
        }) + sent_by_upstream(events.skip(1))
    }
}

/// Data frames go to the upstream as they are, a text frame as UTF-8; pings are answered with their
/// own payload; other frames ask for nothing; and after each of these the session goes on.
pub proof fn law_frames_are_relayed(bytes: Vec<u8>, text: String)
    ensures
        ({
            let binary = Event::Client { message: FromClient::Binary { bytes } };
            let written = Event::Client { message: FromClient::Text { text } };
            let ping = Event::Client { message: FromClient::Ping { payload: bytes } };
            let pong = Event::Client { message: FromClient::Pong };
            let frame = Event::Client { message: FromClient::Frame };
            &&& tcp_step(binary) == (RelayView::ToUpstream { bytes: bytes@ })
            &&& udp_step(binary) == (RelayView::ToUpstream { bytes: bytes@ })
            &&& tcp_step(written) == (RelayView::ToUpstream { bytes: encode_utf8(text@) })
            &&& udp_step(written) == (RelayView::ToUpstream { bytes: encode_utf8(text@) })
            &&& tcp_step(ping) == (RelayView::Pong { payload: bytes@ })
            &&& udp_step(ping) == (RelayView::Pong { payload: bytes@ })
            &&& tcp_step(pong) == RelayView::Nothing
            &&& udp_step(pong) == RelayView::Nothing
            &&& tcp_step(frame) == RelayView::Nothing
            &&& udp_step(frame) == RelayView::Nothing
        }),
        (RelayView::ToUpstream { bytes: bytes@ }).goes_on(),
        (RelayView::ToClient { bytes: bytes@ }).goes_on(),
        (RelayView::Pong { payload: bytes@ }).goes_on(),
        RelayView::Nothing.goes_on(),
{
}

/// Every read from a TCP upstream that gives something is sent to the websocket, all of it and
/// nothing else, and the session goes on; where nothing is read the upstream has ended, and the
/// websocket is closed. A datagram is sent in any case.
pub proof fn law_reads_are_relayed(bytes: Vec<u8>)
    ensures
        ({
            let read = Event::Upstream { event: FromUpstream::Bytes { bytes } };
            &&& bytes@.len() > 0 ==> tcp_step(read) == (RelayView::ToClient { bytes: bytes@ })
            &&& bytes@.len() == 0 ==> tcp_step(read) == RelayView::CloseClient
            &&& udp_step(read) == (RelayView::ToClient { bytes: bytes@ })
        }),
{
}

/// A session ends exactly at the end of either side, at a failure, or when nothing came for too
/// long, and what is then done tells these apart.
pub proof fn law_what_ends_a_session(event: Event)
    ensures
        tcp_step(event).goes_on() <==> !is_tcp_end(event),
        udp_step(event).goes_on() <==> !is_end(event),
        event == (Event::Client { message: FromClient::Close }) || event == (Event::Client {
            message: FromClient::Ended,
        }) ==> tcp_step(event) == RelayView::ShutdownUpstream && udp_step(event)
            == RelayView::End,
        event == (Event::Client { message: FromClient::Failed }) ==> tcp_step(event)
            == RelayView::ClientFailed && udp_step(event) == RelayView::ClientFailed,
        event == (Event::Upstream { event: FromUpstream::Failed }) ==> tcp_step(event)
            == RelayView::UpstreamFailed && udp_step(event) == RelayView::UpstreamFailed,
        event == (Event::Client { message: FromClient::Idle }) || event == (Event::Upstream {
            event: FromUpstream::Idle,
        }) ==> tcp_step(event) == RelayView::CloseClient && udp_step(event)
            == RelayView::CloseClient,
        !RelayView::ShutdownUpstream.goes_on(),
        !RelayView::CloseClient.goes_on(),
        !RelayView::End.goes_on(),
        !RelayView::ClientFailed.goes_on(),
        !RelayView::UpstreamFailed.goes_on(),
{
}

/// A TCP session forwards exactly what it is sent, in both directions and in order: the payloads
/// of binary and text frames to the upstream, and the upstream's bytes to the websocket.
pub proof fn law_tcp_sessions_forward_what_they_are_sent(events: Seq<Event>)
    ensures
        ({
            let actions = session_actions(events.map_values(|e: Event| tcp_step(e)));
            &&& upstream_bytes(actions) == sent_by_client(events)
            &&& client_bytes(actions) == sent_by_upstream(events)
        }),
    decreases events.len(),
{
    let steps = events.map_values(|e: Event| tcp_step(e));
    let actions = session_actions(steps);
    if events.len() > 0 {
        let rest = events.skip(1);
        law_tcp_sessions_forward_what_they_are_sent(rest);
        assert(steps.skip(1) =~= rest.map_values(|e: Event| tcp_step(e)));
        assert(steps[0] == tcp_step(events[0]));
        if steps[0].goes_on() {
            let later = session_actions(steps.skip(1));
            assert(actions =~= seq![steps[0]] + later);
            assert(actions.skip(1) =~= later);
        } else {
            assert(actions.skip(1) =~= Seq::empty());
            reveal_with_fuel(upstream_bytes, 2);
            reveal_with_fuel(client_bytes, 2);
        }
    }
}

/// What actions carry to the upstream, each a datagram of its own.
pub open spec fn upstream_datagrams(actions: Seq<RelayView>) -> Seq<Seq<u8>>
    decreases actions.len(),
{
    if actions.len() == 0 {
        Seq::empty()
    } else {
        (match actions[0] {
            RelayView::ToUpstream { bytes } => seq![bytes],
            _ => Seq::empty(),
        }) + upstream_datagrams(actions.skip(1))
    }
}

/// What actions carry to the websocket, each a frame of its own.
pub open spec fn client_frames(actions: Seq<RelayView>) -> Seq<Seq<u8>>
    decreases actions.len(),
{
    if actions.len() == 0 {
        Seq::empty()
    } else {
        (match actions[0] {
            RelayView::ToClient { bytes } => seq![bytes],
            _ => Seq::empty(),
        }) + client_frames(actions.skip(1))
    }
}

/// The payloads of the binary and text frames that the websocket sends before the end of a UDP
/// session.
pub open spec fn frames_sent(events: Seq<Event>) -> Seq<Seq<u8>>
    decreases events.len(),
{
    if events.len() == 0 || is_end(events[0]) {
        Seq::empty()
    } else {
        (match events[0] {
            Event::Client { message } => match frame_payload(message) {
                Some(bytes) => seq![bytes],
                None => Seq::empty(),
            },
            _ => Seq::empty(),
        }) + frames_sent(events.skip(1))
    }
}

/// The datagrams that the upstream sends before the end of a UDP session.
pub open spec fn datagrams_sent(events: Seq<Event>) -> Seq<Seq<u8>>
    decreases events.len(),
{
    if events.len() == 0 || is_end(events[0]) {
        Seq::empty()
    } else {
        (match events[0] {
            Event::Upstream { event: FromUpstream::Bytes { bytes } } => seq![bytes@],
            _ => Seq::empty(),
        }) + datagrams_sent(events.skip(1))
    }
}

/// A UDP session keeps datagrams apart, in both directions and in order: each binary or text frame
/// becomes one datagram, and each datagram, also an empty one, becomes one frame, with the same
/// bytes.
pub proof fn law_udp_sessions_keep_datagrams_apart(events: Seq<Event>)
    ensures
        ({
            let actions = session_actions(events.map_values(|e: Event| udp_step(e)));
            &&& upstream_datagrams(actions) == frames_sent(events)
            &&& client_frames(actions) == datagrams_sent(events)
        }),
    decreases events.len(),
{
    let steps = events.map_values(|e: Event| udp_step(e));
    let actions = session_actions(steps);
    if events.len() > 0 {
        let rest = events.skip(1);
        law_udp_sessions_keep_datagrams_apart(rest);
        assert(steps.skip(1) =~= rest.map_values(|e: Event| udp_step(e)));
        assert(steps[0] == udp_step(events[0]));
        if steps[0].goes_on() {
            let later = session_actions(steps.skip(1));
            assert(actions =~= seq![steps[0]] + later);
            assert(actions.skip(1) =~= later);
        } else {
            assert(actions.skip(1) =~= Seq::empty());
            reveal_with_fuel(upstream_datagrams, 2);
            reveal_with_fuel(client_frames, 2);
        }
    }
}

/// A session ends at the first event that ends it, and only there.
pub proof fn law_a_session_ends_once(steps: Seq<RelayView>)
    ensures
        forall|i: int|
            0 <= i < session_actions(steps).len() - 1 ==> (#[trigger] session_actions(
                steps,
            )[i]).goes_on(),
        session_actions(steps).is_prefix_of(steps),
        session_actions(steps).len() < steps.len() ==> session_actions(steps).len() > 0
            && !session_actions(steps).last().goes_on(),
    decreases steps.len(),
{
    if steps.len() > 0 && steps[0].goes_on() {
        let later = session_actions(steps.skip(1));
        law_a_session_ends_once(steps.skip(1));
        let actions = session_actions(steps);
        assert(actions =~= seq![steps[0]] + later);
        assert forall|i: int| 0 <= i < actions.len() - 1 implies (
        #[trigger] actions[i]).goes_on() by {
            if i > 0 {
                assert(actions[i] == later[i - 1]);
            }
        }
        assert(actions =~= steps.take(actions.len() as int)) by {
            assert forall|i: int| 0 <= i < actions.len() implies actions[i] == steps[i] by {
                if i > 0 {
                    assert(later[i - 1] == steps.skip(1)[i - 1]);
                }
            }
        }
        if later.len() > 0 {
            assert(actions.last() == later.last());
        }
    } else if steps.len() > 0 {
        assert(session_actions(steps) =~= steps.take(1));
    }
}

} // verus!
