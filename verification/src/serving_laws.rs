//! What holds of the answers of the token endpoints and the health check, and of sessions.
use crate::auth;
use crate::auth::AuthView;
use crate::auth_laws;
use crate::crypto;
use crate::http::{RequestView, ResponseView};
use crate::http_laws;
use crate::login_laws;
use crate::proxy;
use crate::proxy::{RouteView, SessionView};
use crate::text;
use crate::token;
use crate::token::{IssuedView, ServiceView, TokenErrorView};
use crate::token_api;
use crate::token_api::{Endpoint, MomentView};
use vstd::prelude::*;
use vstd::utf8::*;

verus! {

// ---------------------------------------------------------------------------------------------
// The token endpoints
// ---------------------------------------------------------------------------------------------

/// The endpoints are `/auth/token`, `/auth/refresh` and `/auth/revoke`, and no others.
pub proof fn law_where_the_endpoints_are(path: Seq<char>)
    ensures
        token_api::endpoint_at("/auth/token"@) == Some(Endpoint::Login),
        token_api::endpoint_at("/auth/refresh"@) == Some(Endpoint::Refresh),
        token_api::endpoint_at("/auth/revoke"@) == Some(Endpoint::Revoke),
        path != "/auth/token"@ && path != "/auth/refresh"@ && path != "/auth/revoke"@
            ==> token_api::endpoint_at(path) is None,
{
    reveal_strlit("/auth/token");
    reveal_strlit("/auth/refresh");
    reveal_strlit("/auth/revoke");
    assert("/auth/token"@.len() == 11);
    assert("/auth/refresh"@.len() == 13);
    assert("/auth/revoke"@.len() == 12);
}

/// A request has a body where it says how that is transferred, or names a length other than `0`.
pub proof fn law_which_requests_have_a_body(request: RequestView)
    ensures
        token_api::has_body(request) <==> request.value("transfer-encoding"@) is Some || (
        request.value("content-length"@) is Some && request.value("content-length"@) != Some(
            seq![48u8],
        )),
{
}

/// Tokens are answered as JSON that is never cached.
pub proof fn law_how_tokens_are_answered(issued: IssuedView)
    ensures
        token_api::tokens_answer(issued) == (ResponseView {
            status: 200,
            headers: seq![
                ("content-type"@, "application/json"@),
                ("cache-control"@, "no-store"@),
                ("pragma"@, "no-cache"@),
            ],
            body: Some(
                "{\"token_type\":\"Bearer\",\"access_token\":\""@ + issued.access_token
                    + "\",\"expires_in\":"@ + text::decimal(issued.access_expires_in)
                    + ",\"refresh_token\":\""@ + issued.refresh_token
                    + "\",\"refresh_expires_in\":"@ + text::decimal(issued.refresh_expires_in)
                    + "}"@,
            ),
        }),
{
    assert(Seq::empty().push(("content-type"@, "application/json"@)).push(
        ("cache-control"@, "no-store"@),
    ).push(("pragma"@, "no-cache"@)) =~= seq![
        ("content-type"@, "application/json"@),
        ("cache-control"@, "no-store"@),
        ("pragma"@, "no-cache"@),
    ]);
}

/// A plain text answer.
pub open spec fn said(status: u16, message: Seq<char>) -> ResponseView {
    ResponseView {
        status,
        headers: seq![("content-type"@, "text/plain; charset=utf-8"@)],
        body: Some(message),
    }
}

/// A request to an endpoint that can be served: it is a `POST` and has no body.
pub open spec fn is_post(request: RequestView) -> bool {
    &&& request.method == "POST"@
    &&& request.value("transfer-encoding"@) is None
    &&& request.value("content-length"@) is None || request.value("content-length"@) == Some(
        seq![48u8],
    )
}

/// The service after a change of its store.
pub open spec fn changed(config: AuthView, state: token::StateView) -> AuthView {
    AuthView {
        tokens: Some(ServiceView { state, ..config.tokens->0 }),
        ..config
    }
}

/// Without tokens, and at other paths, nothing is found; other methods and requests with a body are
/// refused; and nothing changes.
pub proof fn law_requests_that_are_not_served(
    config: AuthView,
    request: RequestView,
    m: MomentView,
)
    requires
        config.tokens is Some,
    ensures
        ({
            let served = token_api::handled(Some(config), request, m);
            let endpoint = request.path == "/auth/token"@ || request.path == "/auth/refresh"@
                || request.path == "/auth/revoke"@;
            &&& !endpoint ==> served == (Some(config), said(404, "not found"@))
            &&& endpoint && request.method != "POST"@ ==> served == (
                Some(config),
                ResponseView {
                    headers: seq![
                        ("content-type"@, "text/plain; charset=utf-8"@),
                        ("allow"@, "POST"@),
                    ],
                    ..said(405, "use POST"@)
                },
            )
            &&& endpoint && request.method == "POST"@ && !is_post(request) ==> served == (
                Some(config),
                said(400, "request must not have a body"@),
            )
        }),
        token_api::handled(None, request, m) == (None::<AuthView>, said(404, "not found"@)),
        token_api::handled(Some(AuthView { tokens: None, ..config }), request, m) == (
            Some(AuthView { tokens: None, ..config }),
            said(404, "not found"@),
        ),
{
    law_where_the_endpoints_are(request.path);
    law_which_requests_have_a_body(request);
    http_laws::law_plain_text_answers(404, "not found"@);
    http_laws::law_plain_text_answers(405, "use POST"@);
    http_laws::law_plain_text_answers(400, "request must not have a body"@);
    assert(said(405, "use POST"@).headers.push(("allow"@, "POST"@)) =~= seq![
        ("content-type"@, "text/plain; charset=utf-8"@),
        ("allow"@, "POST"@),
    ]);
}

/// A login with an accepted header is answered with the tokens of a new login, and with nothing
/// else; without such a header it is refused.
pub proof fn law_how_logins_are_answered(
    config: AuthView,
    request: RequestView,
    m: MomentView,
    user: Seq<char>,
)
    requires
        config.tokens is Some,
        request.path == "/auth/token"@,
        is_post(request),
    ensures
        ({
            let (after, answer) = token_api::handled(Some(config), request, m);
            let given = request.text("authorization"@);
            let (state, r) = config.tokens->0.login(user, m.now, m.wall, m.family, m.fresh);
            &&& given is None || config.basic_user(given->0) is None ==> after == Some(config)
                && answer == auth::unauthorized(true, None)
            &&& given is Some && config.basic_user(given->0) == Some(user) ==> {
                &&& after == Some(changed(config, state))
                &&& answer == (match r {
                    Ok(issued) => token_api::tokens_answer(issued),
                    Err(TokenErrorView::Full) => said(503, "too many active logins"@),
                    Err(_) => said(500, "failed to issue tokens"@),
                })
            }
        }),
{
    law_where_the_endpoints_are(request.path);
    law_which_requests_have_a_body(request);
    http_laws::law_plain_text_answers(503, "too many active logins"@);
    http_laws::law_plain_text_answers(500, "failed to issue tokens"@);
}

/// An exchange is answered with the tokens that the refresh token is exchanged for, which needs
/// that its user exists; an invalid or rotated token is refused, and so is a request without one.
pub proof fn law_how_exchanges_are_answered(
    config: AuthView,
    request: RequestView,
    m: MomentView,
    refresh_token: Seq<char>,
)
    requires
        config.tokens is Some,
        request.path == "/auth/refresh"@,
        is_post(request),
    ensures
        ({
            let (after, answer) = token_api::handled(Some(config), request, m);
            let given = request.text("authorization"@);
            let service = config.tokens->0;
            let known = service.holder(refresh_token) is Some && config.has_user(
                service.holder(refresh_token)->0,
            );
            let (state, r) = service.refresh(refresh_token, known, m.now, m.wall, m.fresh);
            let plain = "Bearer realm=\"ws2tcp-router\""@;
            let invalid = "Bearer realm=\"ws2tcp-router\", error=\"invalid_token\""@;
            &&& given is None || (forall|t: Seq<char>|
                given->0 != #[trigger] ("Bearer "@ + t) || t.len() == 0) ==> after == Some(config)
                && answer == auth::unauthorized(false, Some(plain))
            &&& given == Some("Bearer "@ + refresh_token) && refresh_token.len() > 0 ==> {
                &&& after == Some(changed(config, state))
                &&& answer == (match r {
                    Ok(exchanged) => token_api::tokens_answer(exchanged.1),
                    Err(TokenErrorView::Invalid) => auth::unauthorized(false, Some(invalid)),
                    Err(TokenErrorView::Reused { user }) => auth::unauthorized(
                        false,
                        Some(invalid),
                    ),
                    Err(TokenErrorView::Full) => said(503, "too many active logins"@),
                    Err(TokenErrorView::Random) => said(500, "failed to issue tokens"@),
                })
            }
        }),
{
    law_where_the_endpoints_are(request.path);
    law_which_requests_have_a_body(request);
    http_laws::law_plain_text_answers(503, "too many active logins"@);
    http_laws::law_plain_text_answers(500, "failed to issue tokens"@);
    auth_laws::law_what_a_bearer_header_presents("Bearer "@ + refresh_token, refresh_token);
    lemma_presented(request.text("authorization"@));
}

/// A revocation ends the family of the refresh token and says nothing of whether there was one; a
/// request without a token is refused.
pub proof fn law_how_revocations_are_answered(
    config: AuthView,
    request: RequestView,
    m: MomentView,
    refresh_token: Seq<char>,
)
    requires
        config.tokens is Some,
        request.path == "/auth/revoke"@,
        is_post(request),
    ensures
        ({
            let (after, answer) = token_api::handled(Some(config), request, m);
            let given = request.text("authorization"@);
            let plain = "Bearer realm=\"ws2tcp-router\""@;
            &&& given is None || (forall|t: Seq<char>|
                given->0 != #[trigger] ("Bearer "@ + t) || t.len() == 0) ==> after == Some(config)
                && answer == auth::unauthorized(false, Some(plain))
            &&& given == Some("Bearer "@ + refresh_token) && refresh_token.len() > 0 ==> {
                &&& after == Some(
                    changed(config, config.tokens->0.revoke(refresh_token, m.now)),
                )
                &&& answer == (ResponseView {
                    status: 204,
                    headers: seq![
                        ("content-type"@, "text/plain; charset=utf-8"@),
                        ("cache-control"@, "no-store"@),
                        ("pragma"@, "no-cache"@),
                    ],
                    body: Some(Seq::empty()),
                })
            }
        }),
{
    law_where_the_endpoints_are(request.path);
    law_which_requests_have_a_body(request);
    http_laws::law_plain_text_answers(204, Seq::empty());
    auth_laws::law_what_a_bearer_header_presents("Bearer "@ + refresh_token, refresh_token);
    lemma_presented(request.text("authorization"@));
    assert(said(204, Seq::empty()).headers.push(("cache-control"@, "no-store"@)).push(
        ("pragma"@, "no-cache"@),
    ) =~= seq![
        ("content-type"@, "text/plain; charset=utf-8"@),
        ("cache-control"@, "no-store"@),
        ("pragma"@, "no-cache"@),
    ]);
    assert("/auth/revoke"@ != "/auth/token"@ && "/auth/revoke"@ != "/auth/refresh"@) by {
        reveal_strlit("/auth/token");
        reveal_strlit("/auth/refresh");
        reveal_strlit("/auth/revoke");
        assert("/auth/token"@.len() == 11);
        assert("/auth/refresh"@.len() == 13);
        assert("/auth/revoke"@.len() == 12);
    }
}

proof fn lemma_presented(given: Option<Seq<char>>)
    ensures
        given is Some && auth::bearer_in(given->0) is Some ==> given->0 == "Bearer "@
            + auth::bearer_in(given->0)->0 && auth::bearer_in(given->0)->0.len() > 0,
{
    if given is Some && auth::bearer_in(given->0) is Some {
        auth_laws::law_what_a_bearer_header_presents(given->0, auth::bearer_in(given->0)->0);
    }
}

// ---------------------------------------------------------------------------------------------
// Plain requests
// ---------------------------------------------------------------------------------------------

/// A plain request of `/` is a health check, answered to whoever is let in; every other plain
/// request is one to the token endpoints.
pub proof fn law_what_plain_requests_are_answered(
    request: RequestView,
    config: Option<AuthView>,
    m: MomentView,
)
    ensures
        request.path == seq!['/'] ==> {
            let (after, answer) = proxy::plain_answer(request, config, m);
            &&& after == config
            &&& match auth::authorized(request, config, m.wall) {
                Ok(_) => answer == said(
                    200,
                    "ok: ws2tcp-router 0.1.12 is available; health check only, no upstream connected"@,
                ),
                Err(refusal) => answer == refusal,
            }
        },
        request.path != seq!['/'] ==> proxy::plain_answer(request, config, m) == token_api::handled(
            config,
            request,
            m,
        ),
{
    reveal_strlit("/");
    assert("/"@ =~= seq!['/']);
    http_laws::law_plain_text_answers(
        200,
        "ok: ws2tcp-router 0.1.12 is available; health check only, no upstream connected"@,
    );
}

/// A plain request is answered, and everything else is left to the websocket handshake; a `HEAD` is
/// answered without the body.
pub proof fn law_what_a_connection_is_answered(
    request: RequestView,
    config: Option<AuthView>,
    m: MomentView,
)
    ensures
        proxy::opened(None, config, m) == (config, None::<Seq<char>>),
        proxy::opened(Some(request), config, m) == (
            proxy::plain_answer(request, config, m).0,
            Some(
                proxy::plain_answer(request, config, m).1.encoded(request.method != "HEAD"@),
            ),
        ),
{
}

/// A connection that presents a refresh token when its record has expired, or when its family's
/// deadline is reached, by the clock that is read for the request, is answered that the token is
/// invalid, and the token is gone; unless the store is full, which is said instead.
pub proof fn law_an_expired_refresh_token_is_refused(
    config: AuthView,
    request: RequestView,
    m: MomentView,
    refresh_token: Seq<char>,
)
    requires
        config.tokens is Some,
        request.path == "/auth/refresh"@,
        is_post(request),
        request.text("authorization"@) == Some("Bearer "@ + refresh_token),
        refresh_token.len() > 0,
        ({
            let store = config.tokens->0.state;
            let hash = crypto::sha256(encode_utf8(refresh_token));
            &&& store.refresh.contains_key(hash)
            &&& m.now >= store.refresh[hash].expires || m.now
                >= store.refresh[hash].family_deadline
        }),
    ensures
        ({
            let (after, answer) = proxy::opened(Some(request), Some(config), m);
            let store = config.tokens->0.state;
            let hash = crypto::sha256(encode_utf8(refresh_token));
            let invalid = "Bearer realm=\"ws2tcp-router\", error=\"invalid_token\""@;
            let refusal = ResponseView {
                status: 401,
                headers: seq![("www-authenticate"@, invalid)],
                body: Some("authentication required"@),
            };
            &&& answer == Some(refusal.encoded(true)) || answer == Some(
                said(503, "too many active logins"@).encoded(true),
            )
            &&& store.refresh.len() + store.spent.len() < 100_000 && m.now < store.next_sweep
                ==> answer == Some(refusal.encoded(true))
            &&& after is Some && after->0.tokens is Some
            &&& !after->0.tokens->0.state.refresh.contains_key(hash)
        }),
{
    let service = config.tokens->0;
    let known = service.holder(refresh_token) is Some && config.has_user(
        service.holder(refresh_token)->0,
    );
    let invalid = "Bearer realm=\"ws2tcp-router\", error=\"invalid_token\""@;
    reveal_strlit("/auth/refresh");
    reveal_strlit("/");
    reveal_strlit("POST");
    reveal_strlit("HEAD");
    assert(request.path.len() == 13);
    assert("HEAD"@[0] == 'H' && "POST"@[0] == 'P');
    law_what_plain_requests_are_answered(request, Some(config), m);
    law_how_exchanges_are_answered(config, request, m, refresh_token);
    auth_laws::law_what_a_refusal_says(invalid);
    let state = service.state.swept(m.now).room_made(m.now);
    let r = service.refresh(refresh_token, known, m.now, m.wall, m.fresh);
    assert(!(r.1 is Ok));
    assert(!r.0.refresh.contains_key(crypto::sha256(encode_utf8(refresh_token))));
}

/// A refresh token that was given out at a login is refused from the end of its lifetime on, and
/// from 30 days after the login on, whatever its lifetime.
pub proof fn law_refresh_tokens_end_with_their_lifetime(
    config: AuthView,
    login: RequestView,
    first: MomentView,
    user: Seq<char>,
    exchange: RequestView,
    second: MomentView,
)
    requires
        config.tokens is Some,
        config.tokens->0.state.refresh.len() + config.tokens->0.state.spent.len() < 100_000,
        login.path == "/auth/token"@,
        is_post(login),
        login.text("authorization"@) matches Some(header) && config.basic_user(header) == Some(
            user,
        ),
        first.family is Some,
        first.fresh is Some,
        first.fresh->0.len() > 0,
        exchange.path == "/auth/refresh"@,
        is_post(exchange),
        exchange.text("authorization"@) == Some("Bearer "@ + first.fresh->0),
        second.now >= login_laws::least(
            first.now + config.tokens->0.refresh_ttl.nanos,
            u128::MAX as int,
        ) || second.now >= login_laws::least(
            first.now + 2_592_000_000_000_000,
            u128::MAX as int,
        ),
    ensures
        ({
            let logged_in = proxy::opened(Some(login), Some(config), first).0;
            let answer = proxy::opened(Some(exchange), logged_in, second).1;
            let invalid = "Bearer realm=\"ws2tcp-router\", error=\"invalid_token\""@;
            let refusal = ResponseView {
                status: 401,
                headers: seq![("www-authenticate"@, invalid)],
                body: Some("authentication required"@),
            };
            answer == Some(refusal.encoded(true)) || answer == Some(
                said(503, "too many active logins"@).encoded(true),
            )
        }),
{
    reveal_strlit("/auth/token");
    reveal_strlit("/");
    assert(login.path.len() == 11);
    let service = config.tokens->0;
    let token = first.fresh->0;
    law_what_plain_requests_are_answered(login, Some(config), first);
    law_how_logins_are_answered(config, login, first, user);
    login_laws::law_what_a_login_does(
        service,
        user,
        first.now,
        first.wall,
        first.family->0,
        token,
    );
    let state = service.login(user, first.now, first.wall, first.family, first.fresh).0;
    let after = changed(config, state);
    assert(after.tokens->0.state == state);
    law_an_expired_refresh_token_is_refused(after, exchange, second, token);
}

/// A refresh token that was given out at a login is exchanged before the end of its lifetime, and
/// of 30 days, while its user exists and there is room.
pub proof fn law_refresh_tokens_last_their_lifetime(
    config: AuthView,
    login: RequestView,
    first: MomentView,
    user: Seq<char>,
    exchange: RequestView,
    second: MomentView,
) -> (issued: IssuedView)
    requires
        config.tokens is Some,
        config.tokens->0.state.refresh.dom().finite(),
        config.tokens->0.state.refresh.len() + config.tokens->0.state.spent.len() < 99_999,
        second.now < config.tokens->0.state.next_sweep,
        login.path == "/auth/token"@,
        is_post(login),
        login.text("authorization"@) matches Some(header) && config.basic_user(header) == Some(
            user,
        ),
        first.family is Some,
        first.fresh is Some,
        first.fresh->0.len() > 0,
        exchange.path == "/auth/refresh"@,
        is_post(exchange),
        exchange.text("authorization"@) == Some("Bearer "@ + first.fresh->0),
        second.fresh is Some,
        second.now < first.now + config.tokens->0.refresh_ttl.nanos,
        second.now < first.now + 2_592_000_000_000_000,
        second.now < u128::MAX,
    ensures
        ({
            let logged_in = proxy::opened(Some(login), Some(config), first).0;
            let answer = proxy::opened(Some(exchange), logged_in, second).1;
            &&& answer == Some(token_api::tokens_answer(issued).encoded(true))
            &&& issued.refresh_token == second.fresh->0
        }),
{
    reveal_strlit("/auth/token");
    reveal_strlit("/auth/refresh");
    reveal_strlit("/");
    reveal_strlit("POST");
    reveal_strlit("HEAD");
    assert(login.path.len() == 11);
    assert(exchange.path.len() == 13);
    assert("HEAD"@[0] == 'H' && "POST"@[0] == 'P');
    let service = config.tokens->0;
    let token = first.fresh->0;
    law_what_plain_requests_are_answered(login, Some(config), first);
    law_how_logins_are_answered(config, login, first, user);
    login_laws::law_what_a_login_does(
        service,
        user,
        first.now,
        first.wall,
        first.family->0,
        token,
    );
    let state = service.login(user, first.now, first.wall, first.family, first.fresh).0;
    let after = changed(config, state);
    let hash = crypto::sha256(encode_utf8(token));
    assert(state.refresh.len() <= service.state.refresh.len() + 1);
    assert(after.expected == config.expected);
    let header = login.text("authorization"@)->0;
    auth_laws::law_who_may_log_in(config, header, user);
    let k = config.expected.index_of(header);
    auth_laws::law_who_is_a_user(after, user, k);
    assert(after.has_user(user));
    assert(after.tokens->0.holder(token) == Some(user));
    law_what_plain_requests_are_answered(exchange, Some(after), second);
    law_how_exchanges_are_answered(after, exchange, second, token);
    login_laws::law_what_an_exchange_does(
        after.tokens->0,
        token,
        second.now,
        second.wall,
        second.fresh->0,
    );
    let r = after.tokens->0.refresh(token, true, second.now, second.wall, second.fresh).1;
    r->Ok_0.1
}

// ---------------------------------------------------------------------------------------------
// Sessions
// ---------------------------------------------------------------------------------------------

/// Whoever is let in gets the session that the path names, with the user agent that the request
/// states, or `-`; a path that names nothing is answered so, and a refusal comes first.
pub proof fn law_what_session_a_request_gets(
    request: RequestView,
    config: Option<AuthView>,
    wall: u64,
    user: Seq<char>,
    route: RouteView,
    agent: Seq<char>,
)
    ensures
        ({
            let r = proxy::session_of(request, config, wall);
            match auth::authorized(request, config, wall) {
                Err(refusal) => r == Err::<SessionView, ResponseView>(refusal),
                Ok(user) => match proxy::route_of(request.path) {
                    Err(_) => r == Err::<SessionView, ResponseView>(
                        ResponseView {
                            status: 400,
                            headers: Seq::empty(),
                            body: Some(
                                "path must be /tcp:<host>:<port> or /udp:<host>:<port>, with IPv6 hosts formatted as [host]:port"@,
                            ),
                        },
                    ),
                    Ok(route) => {
                        &&& r matches Ok(session)
                        &&& session.route == route
                        &&& session.auth_user == user
                        &&& session.user_agent == proxy::user_agent_of(request)
                    },
                },
            }
        }),
        request.text("user-agent"@) == Some(agent) ==> proxy::user_agent_of(request) == agent,
        request.text("user-agent"@) is None ==> proxy::user_agent_of(request) == seq!['-'],
{
    reveal_strlit("-");
    assert("-"@ =~= seq!['-']);
}

/// An access token whose expiry the wall clock has reached is refused, and so is one whose family
/// is revoked, whose user is gone or whose signature is not the service's; the refusal says that
/// the token is invalid.
pub proof fn law_an_expired_access_token_is_refused(
    request: RequestView,
    config: AuthView,
    wall: u64,
    access_token: Seq<char>,
)
    requires
        config.tokens is Some,
        !config.is_anonymous(request.path),
        request.text("authorization"@) == Some("Bearer "@ + access_token),
        access_token.len() > 0,
        !config.expected.contains("Bearer "@ + access_token),
        token::signed_claims(config.tokens->0.secret, access_token) matches Some(c) ==> {
            ||| wall >= c.expires
            ||| config.tokens->0.state.revoked.contains_key(c.family)
            ||| !config.has_user(c.user)
        },
    ensures
        proxy::session_of(request, Some(config), wall) == Err::<SessionView, ResponseView>(
            ResponseView {
                status: 401,
                headers: seq![
                    (
                        "www-authenticate"@,
                        "Basic realm=\"ws2tcp-router\", charset=\"UTF-8\""@,
                    ),
                    (
                        "www-authenticate"@,
                        "Bearer realm=\"ws2tcp-router\", error=\"invalid_token\""@,
                    ),
                ],
                body: Some("authentication required"@),
            },
        ),
{
    auth_laws::law_whom_an_access_token_stands_for(
        config,
        config.tokens->0,
        access_token,
        wall,
    );
    auth_laws::law_who_is_let_in(
        config,
        request,
        wall,
        access_token,
        access_token,
        access_token,
    );
    auth_laws::law_what_a_refusal_says(
        "Bearer realm=\"ws2tcp-router\", error=\"invalid_token\""@,
    );
}

/// An access token whose expiry the wall clock has not reached opens a session for its user, where
/// its family is not revoked, its user exists and the path names something.
pub proof fn law_an_access_token_opens_sessions_until_it_expires(
    request: RequestView,
    config: AuthView,
    wall: u64,
    access_token: Seq<char>,
    c: token::Claims,
)
    requires
        config.tokens is Some,
        !config.is_anonymous(request.path),
        request.text("authorization"@) == Some("Bearer "@ + access_token),
        access_token.len() > 0,
        !config.expected.contains("Bearer "@ + access_token),
        token::signed_claims(config.tokens->0.secret, access_token) == Some(c),
        wall < c.expires,
        !config.tokens->0.state.revoked.contains_key(c.family),
        config.has_user(c.user),
        proxy::route_of(request.path) is Ok,
    ensures
        proxy::session_of(request, Some(config), wall) matches Ok(session) && session.auth_user
            == c.user && session.route == proxy::route_of(request.path)->Ok_0,
{
    auth_laws::law_whom_an_access_token_stands_for(
        config,
        config.tokens->0,
        access_token,
        wall,
    );
    auth_laws::law_who_is_let_in(
        config,
        request,
        wall,
        access_token,
        c.user,
        access_token,
    );
}

} // verus!
