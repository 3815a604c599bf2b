//! What the values of the library stand for: each field for itself.
use crate::args::ArgsError;
use crate::args::ArgsErrorView;
use crate::auth;
use crate::auth::{AuthConfig, AuthError, AuthErrorView};
use crate::client_addr;
use crate::http;
use crate::http::{Header, RawHead, Request, Response};
use crate::http_probe;
use crate::http_probe::HeadReader;
use crate::logging;
use crate::proxy;
use crate::proxy::{Opening, Relay, RelayView, Route, RouteView, Session};
use crate::target;
use crate::target::{Target, TargetError, TargetErrorView};
use crate::text;
use crate::tls;
use crate::tls::{PrivateKey, PrivateKeyView};
use crate::token;
use crate::token::{
    IssuedTokens, RefreshRecord, SpentRecord, State, TokenError, TokenErrorView, TokenService,
};
use crate::token_api;
use crate::token_api::Moment;
use vstd::prelude::*;

verus! {

/// Lists stand for the lists of what their items stand for.
pub proof fn law_lists(
    strings: Seq<String>,
    chars: Seq<Vec<char>>,
    strs: Seq<&str>,
    bytes: Seq<Vec<u8>>,
    pairs: Seq<(String, String)>,
    headers: Seq<Header>,
    raw: Seq<(String, Vec<u8>)>,
    i: int,
)
    ensures
        text::strings(strings).len() == strings.len(),
        0 <= i < strings.len() ==> text::strings(strings)[i] == strings[i]@,
        text::texts(chars).len() == chars.len(),
        0 <= i < chars.len() ==> text::texts(chars)[i] == chars[i]@,
        client_addr::str_views(strs).len() == strs.len(),
        0 <= i < strs.len() ==> client_addr::str_views(strs)[i] == strs[i]@,
        tls::byte_views(bytes).len() == bytes.len(),
        0 <= i < bytes.len() ==> tls::byte_views(bytes)[i] == bytes[i]@,
        http::response_headers(pairs).len() == pairs.len(),
        0 <= i < pairs.len() ==> http::response_headers(pairs)[i] == (pairs[i].0@, pairs[i].1@),
        http::header_views(headers).len() == headers.len(),
        0 <= i < headers.len() ==> http::header_views(headers)[i] == (
            headers[i].name@,
            headers[i].value@,
        ),
        http::raw_headers(raw).len() == raw.len(),
        0 <= i < raw.len() ==> http::raw_headers(raw)[i] == (raw[i].0@, raw[i].1@),
{
}

/// What may be missing stands for itself.
pub proof fn law_what_may_be_missing(
    s: String,
    t: &str,
    config: AuthConfig,
    certs: Vec<Vec<u8>>,
    key: PrivateKey,
    request: Request,
)
    ensures
        text::optional(None) is None,
        text::optional(Some(s)) == Some(s@),
        auth::str_view(None) is None,
        auth::str_view(Some(t)) == Some(t@),
        logging::given(None) is None,
        logging::given(Some(t)) == Some(t@),
        auth::read_view(Ok(t)) == Ok::<Seq<char>, Seq<char>>(t@),
        auth::read_view(Err(t)) == Err::<Seq<char>, Seq<char>>(t@),
        auth::optional_auth(None) is None,
        auth::optional_auth(Some(&config)) == Some(config@),
        token_api::owned_auth(None) is None,
        token_api::owned_auth(Some(config)) == Some(config@),
        auth::auth_view(Ok(None)) == Ok::<Option<auth::AuthView>, AuthErrorView>(None),
        auth::auth_view(Ok(Some(config))) == Ok::<Option<auth::AuthView>, AuthErrorView>(
            Some(config@),
        ),
        tls::certs_view(None) is None,
        tls::certs_view(Some(certs)) == Some(tls::byte_views(certs@)),
        tls::key_view(None) is None,
        tls::key_view(Some(None)) == Some(None::<PrivateKeyView>),
        tls::key_view(Some(Some(key))) == Some(Some(key@)),
        http_probe::viewed(None) is None,
        http_probe::viewed(Some(request)) == Some(request@),
        proxy::opening_view(Opening::Handshake) is None,
        proxy::opening_view(Opening::Answer { text: s }) == Some(s@),
{
}

/// Outcomes stand for what they hold.
pub proof fn law_outcomes(
    s: String,
    response: Response,
    session: Session,
    issued: IssuedTokens,
    error: TokenError,
    target: Target,
    bad: TargetError,
    fault: AuthError,
)
    ensures
        auth::outcome(Ok(s)) == Ok::<Seq<char>, http::ResponseView>(s@),
        auth::outcome(Err(response)) == Err::<Seq<char>, http::ResponseView>(response@),
        proxy::session_view(Ok(session)) == Ok::<proxy::SessionView, http::ResponseView>(session@),
        proxy::session_view(Err(response)) == Err::<proxy::SessionView, http::ResponseView>(
            response@,
        ),
        token::issued_view(Ok(issued)) == Ok::<token::IssuedView, TokenErrorView>(issued@),
        token::issued_view(Err(error)) == Err::<token::IssuedView, TokenErrorView>(error@),
        token::refreshed_view(Ok((s, issued))) == Ok::<
            (Seq<char>, token::IssuedView),
            TokenErrorView,
        >((s@, issued@)),
        token::refreshed_view(Err(error)) == Err::<(Seq<char>, token::IssuedView), TokenErrorView>(
            error@,
        ),
        target::parsed(Ok(target)) == Ok::<target::TargetView, TargetErrorView>(target@),
        target::parsed(Err(bad)) == Err::<target::TargetView, TargetErrorView>(bad@),
        auth::auth_view(Err(fault)) == Err::<Option<auth::AuthView>, AuthErrorView>(fault@),
        logging::chosen(Ok(s)) == Ok::<Seq<char>, Seq<char>>(s@),
        logging::chosen(Err(s)) == Err::<Seq<char>, Seq<char>>(s@),
{
}

/// Requests and answers stand for their parts.
pub proof fn law_requests_and_answers(
    request: Request,
    raw: RawHead,
    response: Response,
    reader: HeadReader,
)
    ensures
        request@.method == request.method@,
        request@.path == request.path@,
        request@.headers == http::header_views(request.headers@),
        raw@.0 == raw.method@,
        raw@.1 == raw.target@,
        raw@.2 == http::raw_headers(raw.headers@),
        response@.status == response.status,
        response@.headers == http::response_headers(response.headers@),
        response@.body == text::optional(response.body),
        reader@.head == reader.head@,
        reader@.ended == reader.ended,
{
}

/// Targets, routes and sessions stand for their parts.
pub proof fn law_targets_and_sessions(
    target: Target,
    protocol: proxy::Protocol,
    session: Session,
    port: String,
)
    ensures
        target@.host == target.host@,
        target@.port == target.port,
        Route::HealthCheck@ == RouteView::HealthCheck,
        (Route::Proxy { protocol, target })@ == (RouteView::Proxy { protocol, target: target@ }),
        session@.route == session.route@,
        session@.auth_user == session.auth_user@,
        session@.user_agent == session.user_agent@,
        TargetError::NotTcp@ == TargetErrorView::NotTcp,
        TargetError::BracketForm@ == TargetErrorView::BracketForm,
        TargetError::Form@ == TargetErrorView::Form,
        TargetError::Unbracketed@ == TargetErrorView::Unbracketed,
        TargetError::EmptyHost@ == TargetErrorView::EmptyHost,
        (TargetError::Port { port })@ == (TargetErrorView::Port { port: port@ }),
{
}

/// The actions of a session stand for themselves.
pub proof fn law_actions(bytes: Vec<u8>)
    ensures
        (Relay::ToUpstream { bytes })@ == (RelayView::ToUpstream { bytes: bytes@ }),
        (Relay::ToClient { bytes })@ == (RelayView::ToClient { bytes: bytes@ }),
        (Relay::Pong { payload: bytes })@ == (RelayView::Pong { payload: bytes@ }),
        Relay::Nothing@ == RelayView::Nothing,
        Relay::ShutdownUpstream@ == RelayView::ShutdownUpstream,
        Relay::CloseClient@ == RelayView::CloseClient,
        Relay::End@ == RelayView::End,
        Relay::ClientFailed@ == RelayView::ClientFailed,
        Relay::UpstreamFailed@ == RelayView::UpstreamFailed,
{
}

/// What the authentication holds stands for its parts.
pub proof fn law_configurations(
    config: AuthConfig,
    error: auth::CredentialError,
    cause: String,
    line: usize,
    bad: TargetError,
)
    ensures
        config@.expected == text::strings(config.expected_authorizations@),
        config@.fixed == text::strings(config.fixed_authorizations@),
        config@.file == config.basic_auth_file,
        config@.anonymous == text::strings(config.anonymous_targets@),
        config.tokens is None ==> config@.tokens is None,
        config.tokens is Some ==> config@.tokens == Some(config.tokens->0@),
        (AuthError::Credential { error })@ == (AuthErrorView::Credential { error }),
        (AuthError::FileRead { cause })@ == (AuthErrorView::FileRead { cause: cause@ }),
        (AuthError::FileCredential { line, error })@ == (AuthErrorView::FileCredential {
            line: line as nat,
            error,
        }),
        AuthError::NoCredentials@ == AuthErrorView::NoCredentials,
        (AuthError::AnonymousTarget { target: cause, error: bad })@
            == (AuthErrorView::AnonymousTarget { target: cause@, error: bad@ }),
        ArgsError::Conflict@ == ArgsErrorView::Conflict,
        ArgsError::BufferSize@ == ArgsErrorView::BufferSize,
        (ArgsError::AnonymousTarget { target: cause, error: bad })@
            == (ArgsErrorView::AnonymousTarget { target: cause@, error: bad@ }),
        ArgsError::TlsPair@ == ArgsErrorView::TlsPair,
        ArgsError::AutoWithFiles@ == ArgsErrorView::AutoWithFiles,
        ArgsError::WssWithoutTls@ == ArgsErrorView::WssWithoutTls,
        ArgsError::SamePorts@ == ArgsErrorView::SamePorts,
{
}

/// Tokens and the service that gives them out stand for their parts.
pub proof fn law_tokens(
    issued: IssuedTokens,
    record: RefreshRecord,
    spent: SpentRecord,
    state: State,
    service: TokenService,
    m: Moment,
    user: String,
)
    ensures
        issued@.access_token == issued.access_token@,
        issued@.access_expires_in == issued.access_expires_in,
        issued@.refresh_token == issued.refresh_token@,
        issued@.refresh_expires_in == issued.refresh_expires_in,
        record@.family == record.family,
        record@.user == record.user@,
        record@.expires == record.expires,
        record@.family_deadline == record.family_deadline,
        spent@.family == spent.family,
        spent@.user == spent.user@,
        spent@.expires == spent.expires,
        state@.refresh == state.refresh@,
        state@.spent == state.spent@,
        state@.revoked == state.revoked@,
        state@.next_sweep == state.next_sweep,
        service@.secret == service.secret@,
        service@.access_ttl == service.access_ttl,
        service@.refresh_ttl == service.refresh_ttl,
        service@.started == service.started,
        service@.state == service.state@,
        m@.now == m.now,
        m@.wall == m.wall,
        m@.family == m.family,
        m@.fresh == text::optional(m.fresh),
        TokenError::Invalid@ == TokenErrorView::Invalid,
        (TokenError::Reused { user })@ == (TokenErrorView::Reused { user: user@ }),
        TokenError::Full@ == TokenErrorView::Full,
        TokenError::Random@ == TokenErrorView::Random,
{
}

/// A private key stands for its kind and its bytes.
pub proof fn law_private_keys(der: Vec<u8>)
    ensures
        (PrivateKey::Pkcs1 { der })@ == (PrivateKeyView::Pkcs1 { der: der@ }),
        (PrivateKey::Sec1 { der })@ == (PrivateKeyView::Sec1 { der: der@ }),
        (PrivateKey::Pkcs8 { der })@ == (PrivateKeyView::Pkcs8 { der: der@ }),
{
}

} // verus!
