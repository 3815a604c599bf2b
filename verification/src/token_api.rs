//! The token endpoints, served as plain HTTP next to the health check:
//!
//! | endpoint             | credential                        | result                          |
//! |----------------------|-----------------------------------|---------------------------------|
//! | `POST /auth/token`   | Basic Auth                        | a new access + refresh token    |
//! | `POST /auth/refresh` | `Bearer <refresh token>`          | a new pair; the old one is void |
//! | `POST /auth/revoke`  | `Bearer <refresh token>`          | logs out (`204`)                |
//!
//! Requests carry no body; the credential is in the `Authorization` header. Nothing here checks
//! whether the connection is encrypted: with a reverse proxy terminating TLS in front, the router
//! only ever sees plain connections.
use crate::auth;
use crate::auth::{AuthConfig, AuthView, BEARER_CHALLENGE, BEARER_INVALID_CHALLENGE};
use crate::clock;
use crate::http;
use crate::http::{Request, Response};
use crate::http_probe;
use crate::text;
use crate::token;
use crate::token::{IssuedTokens, TokenError, TokenService};
use vstd::prelude::*;
use vstd::utf8::*;

verus! {

/// A token endpoint.
#[derive(Debug, Clone, Copy, PartialEq, Eq, Structural)]
pub enum Endpoint {
    Login,
    Refresh,
    Revoke,
}

/// The endpoint at a path.
pub open spec fn endpoint_at(path: Seq<char>) -> Option<Endpoint> {
    if path == "/auth/token"@ {
        Some(Endpoint::Login)
    } else if path == "/auth/refresh"@ {
        Some(Endpoint::Refresh)
    } else if path == "/auth/revoke"@ {
        Some(Endpoint::Revoke)
    } else {
        None
    }
}

/// The endpoint at a path.
pub fn endpoint(path: &str) -> (r: Option<Endpoint>)
    ensures
        r == endpoint_at(path@),
{
    if text::str_eq(path, "/auth/token") {
        Some(Endpoint::Login)
    } else if text::str_eq(path, "/auth/refresh") {
        Some(Endpoint::Refresh)
    } else if text::str_eq(path, "/auth/revoke") {
        Some(Endpoint::Revoke)
    } else {
        None
    }
}

/// What the clocks show when a request is answered, and what is drawn for its answer.
#[derive(Debug)]
pub struct Moment {
    pub now: u128,
    pub wall: u64,
    pub family: Option<u64>,
    pub fresh: Option<String>,
}

/// What the clocks show when a request is answered, and what is drawn for its answer.
pub struct MomentView {
    pub now: u128,
    pub wall: u64,
    pub family: Option<u64>,
    pub fresh: Option<Seq<char>>,
}

impl View for Moment {
    type V = MomentView;

    open spec fn view(&self) -> MomentView {
        MomentView {
            now: self.now,
            wall: self.wall,
            family: self.family,
            fresh: text::optional(self.fresh),
        }
    }
}

impl Moment {
    /// Reads the clocks, and draws a family and a refresh token.
    pub fn draw(tokens: &TokenService) -> (r: Moment)
        ensures
            r@.fresh matches Some(token) ==> token::is_drawn(token) && token::token_fits(token),
            clock::is_elapsed(tokens@.started, r@.now),
            clock::is_wall(r@.wall),
            token::is_new_family(r@.family),
            token::is_fresh(r@.fresh),
    {
        let fresh = token::generate_token().ok();
        proof {
            if fresh is Some {
                token::lemma_opaque_fits(fresh->0@);
            }
        }
        Moment {
            now: clock::nanos_since(&tokens.started),
            wall: clock::unix_now(),
            family: token::random_family().ok(),
            fresh,
        }
    }
}

/// The moment is the one in which a request is answered: the clocks were read for it, and where
/// there is a token service, a family and a refresh token were drawn for it.
pub open spec fn is_moment(auth: Option<AuthView>, m: MomentView) -> bool {
    &&& clock::is_wall(m.wall)
    &&& auth matches Some(a) ==> (a.tokens matches Some(tokens) ==> {
        &&& clock::is_elapsed(tokens.started, m.now)
        &&& token::is_new_family(m.family)
        &&& token::is_fresh(m.fresh)
    })
}

/// The request announces a body.
pub open spec fn has_body(request: http::RequestView) -> bool {
    ||| request.value("transfer-encoding"@) is Some
    ||| (request.value("content-length"@) matches Some(length) && length != seq![48u8])
}

/// Whether a request announces a body.
fn announces_body(request: &Request) -> (r: bool)
    ensures
        r == has_body(request@),
{
    if request.value("transfer-encoding").is_some() {
        return true;
    }
    match request.value("content-length") {
        Some(length) => {
            assert(length@.len() == 1 && length@[0] == 48 ==> length@ =~= seq![48u8]);
            !(length.len() == 1 && length[0] == 48)
        },
        None => false,
    }
}

/// Tokens must never be cached by the client or an intermediary.
pub open spec fn uncached(response: http::ResponseView) -> http::ResponseView {
    response.with("cache-control"@, "no-store"@).with("pragma"@, "no-cache"@)
}

/// Tokens must never be cached by the client or an intermediary.
pub fn no_store(response: Response) -> (r: Response)
    ensures
        r@ == uncached(response@),
{
    response.with("cache-control", "no-store").with("pragma", "no-cache")
}

/// The body of an answer with tokens.
pub open spec fn tokens_json(issued: token::IssuedView) -> Seq<char> {
    "{\"token_type\":\"Bearer\",\"access_token\":\""@ + issued.access_token + "\",\"expires_in\":"@
        + text::decimal(issued.access_expires_in) + ",\"refresh_token\":\""@ + issued.refresh_token
        + "\",\"refresh_expires_in\":"@ + text::decimal(issued.refresh_expires_in) + "}"@
}

/// The answer with tokens.
pub open spec fn tokens_answer(issued: token::IssuedView) -> http::ResponseView {
    uncached(
        (http::ResponseView {
            status: 200,
            headers: Seq::empty(),
            body: Some(tokens_json(issued)),
        }).with("content-type"@, "application/json"@),
    )
}

/// The answer with tokens.
pub fn tokens_response(issued: &IssuedTokens) -> (r: Response)
    ensures
        r@ == tokens_answer(issued@),
{
    // Every value is base64url or a number, so nothing needs JSON escaping.
    let mut body = "{\"token_type\":\"Bearer\",\"access_token\":\"".to_owned();
    body.append(issued.access_token.as_str());
    body.append("\",\"expires_in\":");
    body.append(text::decimal_string(issued.access_expires_in).as_str());
    body.append(",\"refresh_token\":\"");
    body.append(issued.refresh_token.as_str());
    body.append("\",\"refresh_expires_in\":");
    body.append(text::decimal_string(issued.refresh_expires_in).as_str());
    body.append("}");
    no_store(Response::new(200, body.as_str()).with("content-type", "application/json"))
}

/// The answer where no tokens could be issued.
pub open spec fn token_error_answer(e: token::TokenErrorView) -> http::ResponseView {
    match e {
        token::TokenErrorView::Full => http_probe::text_answer(503, "too many active logins"@),
        _ => http_probe::text_answer(500, "failed to issue tokens"@),
    }
}

/// The answer where no tokens could be issued.
pub fn token_error_response(err: &TokenError) -> (r: Response)
    ensures
        r@ == token_error_answer(err@),
{
    match err {
        TokenError::Full => http_probe::text_response(503, "too many active logins"),
        _ => http_probe::text_response(500, "failed to issue tokens"),
    }
}

/// The answer to a path that is no endpoint, or where there is no token service.
pub open spec fn not_found() -> http::ResponseView {
    http_probe::text_answer(404, "not found"@)
}

impl AuthView {
    /// The configuration with another state of its token service.
    pub open spec fn with_state(self, state: token::StateView) -> AuthView {
        AuthView {
            tokens: match self.tokens {
                Some(tokens) => Some(tokens.with(state)),
                None => None,
            },
            ..self
        }
    }

    /// The answer to a login, and the configuration after it.
    pub open spec fn answer_login(
        self,
        tokens: token::ServiceView,
        authorization: Option<Seq<char>>,
        m: MomentView,
    ) -> (AuthView, http::ResponseView) {
        match authorization {
            Some(a) => match self.basic_user(a) {
                Some(user) => {
                    let (state, r) = tokens.login(user, m.now, m.wall, m.family, m.fresh);
                    (
                        self.with_state(state),
                        match r {
                            Ok(issued) => tokens_answer(issued),
                            Err(e) => token_error_answer(e),
                        },
                    )
                },
                None => (self, auth::unauthorized(true, None)),
            },
            None => (self, auth::unauthorized(true, None)),
        }
    }

    /// The answer to a refresh, and the configuration after it.
    pub open spec fn answer_refresh(
        self,
        tokens: token::ServiceView,
        token: Seq<char>,
        m: MomentView,
    ) -> (AuthView, http::ResponseView) {
        let known = tokens.holder(token) matches Some(user) && self.has_user(user);
        let (state, r) = tokens.refresh(token, known, m.now, m.wall, m.fresh);
        (
            self.with_state(state),
            match r {
                Ok((_, issued)) => tokens_answer(issued),
                Err(token::TokenErrorView::Invalid) => auth::unauthorized(
                    false,
                    Some(BEARER_INVALID_CHALLENGE@),
                ),
                Err(token::TokenErrorView::Reused { .. }) => auth::unauthorized(
                    false,
                    Some(BEARER_INVALID_CHALLENGE@),
                ),
                Err(e) => token_error_answer(e),
            },
        )
    }

    /// The answer to a logout, and the configuration after it. It is the same whether or not the
    /// token was known, so this is no oracle for tokens.
    pub open spec fn answer_revoke(
        self,
        tokens: token::ServiceView,
        token: Seq<char>,
        m: MomentView,
    ) -> (AuthView, http::ResponseView) {
        (
            self.with_state(tokens.revoke(token, m.now)),
            uncached(http_probe::text_answer(204, Seq::empty())),
        )
    }

    /// The answer of the token service, and the configuration after it.
    pub open spec fn answer(
        self,
        tokens: token::ServiceView,
        request: http::RequestView,
        m: MomentView,
    ) -> (AuthView, http::ResponseView) {
        let authorization = request.text("authorization"@);
        let bearer = match authorization {
            Some(a) => auth::bearer_in(a),
            None => None,
        };
        match endpoint_at(request.path) {
            None => (self, not_found()),
            Some(endpoint) => if request.method != "POST"@ {
                (self, http_probe::text_answer(405, "use POST"@).with("allow"@, "POST"@))
            } else if has_body(request) {
                (self, http_probe::text_answer(400, "request must not have a body"@))
            } else if endpoint == Endpoint::Login {
                self.answer_login(tokens, authorization, m)
            } else {
                match bearer {
                    None => (self, auth::unauthorized(false, Some(BEARER_CHALLENGE@))),
                    Some(token) => if endpoint == Endpoint::Refresh {
                        self.answer_refresh(tokens, token, m)
                    } else {
                        self.answer_revoke(tokens, token, m)
                    },
                }
            },
        }
    }
}

/// The answer to a plain request for a path under `/auth/`, and the configuration after it.
pub open spec fn handled(auth: Option<AuthView>, request: http::RequestView, m: MomentView) -> (
    Option<AuthView>,
    http::ResponseView,
) {
    match auth {
        None => (None, not_found()),
        Some(a) => match a.tokens {
            None => (auth, not_found()),
            Some(tokens) => {
                let (after, response) = a.answer(tokens, request, m);
                (Some(after), response)
            },
        },
    }
}

/// An optional configuration, by its contents.
pub open spec fn owned_auth(auth: Option<AuthConfig>) -> Option<AuthView> {
    match auth {
        Some(auth) => Some(auth@),
        None => None,
    }
}

impl AuthConfig {
    /// The answer to a login.
    fn answer_login(&mut self, authorization: Option<&str>, m: Moment) -> (r: Response)
        requires
            old(self).wf(),
            old(self).tokens is Some,
            authorization matches Some(a) ==> crate::codec::within_limits(a@.len()),
            m@.fresh matches Some(token) ==> token::token_fits(token),
        ensures
            final(self).wf(),
            (final(self)@, r@) == old(self)@.answer_login(
                old(self)@.tokens->0,
                auth::str_view(authorization),
                m@,
            ),
    {
        let user = match authorization {
            Some(authorization) => self.basic_user(authorization),
            None => None,
        };
        let user = match user {
            Some(user) => user,
            None => return auth::unauthorized_response(true, None),
        };
        match &mut self.tokens {
            Some(tokens) => match tokens.login_at(user.as_str(), m.now, m.wall, m.family, m.fresh) {
                Ok(issued) => tokens_response(&issued),
                Err(err) => token_error_response(&err),
            },
            None => auth::unauthorized_response(true, None),
        }
    }

    /// The answer to a refresh.
    fn answer_refresh(&mut self, token: &str, m: Moment) -> (r: Response)
        requires
            old(self).wf(),
            old(self).tokens is Some,
            token::token_fits(token@),
            m@.fresh matches Some(token) ==> token::token_fits(token),
        ensures
            final(self).wf(),
            (final(self)@, r@) == old(self)@.answer_refresh(old(self)@.tokens->0, token@, m@),
    {
        let holder = match &self.tokens {
            Some(tokens) => tokens.holder(token),
            None => None,
        };
        let known = match holder {
            Some(user) => self.has_user(user.as_str()),
            None => false,
        };
        match &mut self.tokens {
            Some(tokens) => match tokens.refresh_at(token, known, m.now, m.wall, m.fresh) {
                Ok((_, issued)) => tokens_response(&issued),
                Err(TokenError::Invalid) => auth::unauthorized_response(
                    false,
                    Some(BEARER_INVALID_CHALLENGE),
                ),
                Err(TokenError::Reused { .. }) => auth::unauthorized_response(
                    false,
                    Some(BEARER_INVALID_CHALLENGE),
                ),
                Err(err) => token_error_response(&err),
            },
            None => auth::unauthorized_response(true, None),
        }
    }

    /// The answer to a logout.
    fn answer_revoke(&mut self, token: &str, m: Moment) -> (r: Response)
        requires
            old(self).wf(),
            old(self).tokens is Some,
            token::token_fits(token@),
        ensures
            final(self).wf(),
            (final(self)@, r@) == old(self)@.answer_revoke(old(self)@.tokens->0, token@, m@),
    {
        // Answer the same whether or not the token was known, so this is no oracle for tokens.
        match &mut self.tokens {
            Some(tokens) => {
                tokens.revoke_at(token, m.now);
            },
            None => {},
        }
        proof {
            reveal_strlit("");
            assert(""@ =~= Seq::<char>::empty());
        }
        no_store(http_probe::text_response(204, ""))
    }

    /// The answer of the token service to a plain request for a path under `/auth/`.
    pub fn answer(&mut self, request: &Request, m: Moment) -> (r: Response)
        requires
            old(self).wf(),
            old(self).tokens is Some,
            request@.fits(),
            m@.fresh matches Some(token) ==> token::token_fits(token),
        ensures
            final(self).wf(),
            (final(self)@, r@) == old(self)@.answer(old(self)@.tokens->0, request@, m@),
    {
        let endpoint = match endpoint(request.path.as_str()) {
            Some(endpoint) => endpoint,
            None => return http_probe::text_response(404, "not found"),
        };
        if !text::str_eq(request.method.as_str(), "POST") {
            return http_probe::text_response(405, "use POST").with("allow", "POST");
        }
        // The credential is in the header. Refusing a body also means there is nothing left unread
        // on the connection that is closed after the answer.
        if announces_body(request) {
            return http_probe::text_response(400, "request must not have a body");
        }
        proof {
            http::lemma_text_fits(request@, "authorization"@);
        }
        let authorization = request.text("authorization");
        let presented = match &authorization {
            Some(authorization) => Some(authorization.as_str()),
            None => None,
        };
        if endpoint == Endpoint::Login {
            return self.answer_login(presented, m);
        }
        let token = match presented {
            Some(authorization) => auth::bearer_token(authorization),
            None => None,
        };
        let token = match token {
            Some(token) => token,
            None => return auth::unauthorized_response(false, Some(BEARER_CHALLENGE)),
        };
        proof {
            auth::lemma_suffix_fits(presented->0@, "Bearer "@.len() as int);
        }
        if endpoint == Endpoint::Refresh {
            self.answer_refresh(token.as_str(), m)
        } else {
            self.answer_revoke(token.as_str(), m)
        }
    }
}

/// Answers a plain HTTP request for a path under `/auth/`, given what the clocks show and what is
/// drawn for the answer.
pub fn handle_auth_request_at(request: &Request, auth: &mut Option<AuthConfig>, m: Moment) -> (r:
    Response)
    requires
        request@.fits(),
        *old(auth) matches Some(a) ==> a.wf(),
        m@.fresh matches Some(token) ==> token::token_fits(token),
    ensures
        *final(auth) matches Some(a) ==> a.wf(),
        (owned_auth(*final(auth)), r@) == handled(owned_auth(*old(auth)), request@, m@),
{
    match auth {
        None => http_probe::text_response(404, "not found"),
        Some(a) => if a.tokens.is_none() {
            http_probe::text_response(404, "not found")
        } else {
            a.answer(request, m)
        },
    }
}

/// Answers a plain HTTP request for a path under `/auth/`.
pub fn handle_auth_request(request: &Request, auth: &mut Option<AuthConfig>) -> (r: Response)
    requires
        request@.fits(),
        *old(auth) matches Some(a) ==> a.wf(),
    ensures
        *final(auth) matches Some(a) ==> a.wf(),
        exists|m: MomentView|
            {
                &&& (owned_auth(*final(auth)), r@) == #[trigger] handled(
                    owned_auth(*old(auth)),
                    request@,
                    m,
                )
                &&& m.fresh matches Some(token) ==> token::is_drawn(token)
                &&& is_moment(owned_auth(*old(auth)), m)
            },
{
    let m = match auth {
        Some(a) => match &a.tokens {
            Some(tokens) => Moment::draw(tokens),
            None => Moment { now: 0, wall: clock::unix_now(), family: None, fresh: None },
        },
        None => Moment { now: 0, wall: clock::unix_now(), family: None, fresh: None },
    };
    let ghost drawn = m@;
    let r = handle_auth_request_at(request, auth, m);
    assert((owned_auth(*auth), r@) == handled(owned_auth(*old(auth)), request@, drawn));
    r
}

// ---------------------------------------------------------------------------------------------
// Laws
// ---------------------------------------------------------------------------------------------

/// The token endpoints do not exist without a token service.
pub proof fn law_there_are_no_endpoints_without_a_token_service(
    auth: Option<AuthView>,
    request: http::RequestView,
    m: MomentView,
)
    requires
        auth matches Some(a) ==> a.tokens is None,
    ensures
        handled(auth, request, m) == (auth, not_found()),
{
}

/// The endpoints accept only `POST` without a body; other requests change nothing.
pub proof fn law_endpoints_accept_only_post_without_a_body(
    auth: AuthView,
    tokens: token::ServiceView,
    request: http::RequestView,
    m: MomentView,
)
    requires
        endpoint_at(request.path) is None || request.method != "POST"@ || has_body(request),
    ensures
        auth.answer(tokens, request, m).0 == auth,
        auth.answer(tokens, request, m).1.status == (if endpoint_at(request.path) is None {
            404u16
        } else if request.method != "POST"@ {
            405u16
        } else {
            400u16
        }),
{
}

/// Logging out is answered the same whether or not the token was known.
pub proof fn law_revoking_is_no_oracle(
    auth: AuthView,
    tokens: token::ServiceView,
    one: Seq<char>,
    other: Seq<char>,
    m: MomentView,
)
    ensures
        auth.answer_revoke(tokens, one, m).1 == auth.answer_revoke(tokens, other, m).1,
{
}

/// A login needs accepted Basic credentials: without them nothing changes, and the refusal
/// carries no tokens.
pub proof fn law_login_needs_valid_basic_credentials(
    auth: AuthView,
    tokens: token::ServiceView,
    authorization: Option<Seq<char>>,
    m: MomentView,
)
    requires
        authorization matches Some(a) ==> auth.basic_user(a) is None,
    ensures
        auth.answer_login(tokens, authorization, m) == (auth, auth::unauthorized(true, None)),
{
}

/// A refresh token is not exchanged for a user whose credentials are gone.
pub proof fn law_refresh_needs_an_existing_user(
    auth: AuthView,
    tokens: token::ServiceView,
    token: Seq<char>,
    m: MomentView,
)
    requires
        tokens.holder(token) matches Some(user) ==> !auth.has_user(user),
    ensures
        auth.answer_refresh(tokens, token, m).1.status != 200,
{
}

/// Answers with tokens, and to a logout, are never cached.
pub proof fn law_answers_with_tokens_are_never_cached(
    issued: token::IssuedView,
    auth: AuthView,
    tokens: token::ServiceView,
    token: Seq<char>,
    m: MomentView,
)
    ensures
        tokens_answer(issued).headers.contains(("cache-control"@, "no-store"@)),
        auth.answer_revoke(tokens, token, m).1.headers.contains(("cache-control"@, "no-store"@)),
{
    assert(tokens_answer(issued).headers[1] == ("cache-control"@, "no-store"@));
    assert(auth.answer_revoke(tokens, token, m).1.headers[1] == ("cache-control"@, "no-store"@));
}

/// A header with a token presents that token, and no Basic credentials.
proof fn lemma_bearer(expected: Seq<Seq<char>>, token: Seq<char>)
    requires
        token.len() > 0,
        auth::name_users(expected),
    ensures
        auth::bearer_in("Bearer "@ + token) == Some(token),
        !expected.contains("Bearer "@ + token),
{
    reveal_strlit("Basic ");
    reveal_strlit("Bearer ");
    let bearer = "Bearer "@ + token;
    assert(bearer.take("Bearer "@.len() as int) =~= "Bearer "@);
    assert(bearer.skip("Bearer "@.len() as int) =~= token);
    if expected.contains(bearer) {
        let i = choose|i: int| 0 <= i < expected.len() && expected[i] == bearer;
        assert(auth::basic_username(expected[i]) is Some);
        assert(bearer.take(6)[1] == 'e');
        assert("Basic "@[1] == 'a');
    }
}

/// What a login issues opens the router: the access token authorizes requests as the user that
/// logged in, until it expires.
///
/// That the issued token carries the claims is what `login_at` promises of it; the family must not
/// have been revoked before.
pub proof fn law_an_issued_access_token_authorizes_requests(
    auth: AuthView,
    tokens: token::ServiceView,
    authorization: Seq<char>,
    m: MomentView,
    request: http::RequestView,
    wall: u64,
)
    requires
        auth.tokens == Some(tokens),
        auth.basic_user(authorization) is Some,
        m.family is Some,
        !tokens.state.revoked.contains_key(m.family->0),
        ({
            let user = auth.basic_user(authorization)->0;
            let r = tokens.login(user, m.now, m.wall, m.family, m.fresh).1;
            let expires = token::wall_after(m.wall, tokens.access_ttl.spec_secs());
            &&& r is Ok
            &&& token::signed_claims(tokens.secret, r->Ok_0.access_token) == Some(
                token::Claims { family: m.family->0, expires, user },
            )
            &&& wall < expires
            &&& request.text("authorization"@) == Some("Bearer "@ + r->Ok_0.access_token)
        }),
        auth::name_users(auth.expected),
        !auth.is_anonymous(request.path),
    ensures
        auth.answer_login(tokens, Some(authorization), m).0.authorize(request, wall) == Ok::<
            Seq<char>,
            http::ResponseView,
        >(auth.basic_user(authorization)->0),
{
    let user = auth.basic_user(authorization)->0;
    let (state, r) = tokens.login(user, m.now, m.wall, m.family, m.fresh);
    let token = r->Ok_0.access_token;
    let bearer = "Bearer "@ + token;
    assert(token.len() > 0) by {
        text::lemma_first(token, '.');
    }
    lemma_bearer(auth.expected, token);
    let after = auth.answer_login(tokens, Some(authorization), m).0;
    let i = choose|i: int| 0 <= i < auth.expected.len() && auth.expected[i] == authorization;
    assert(auth::basic_username(after.expected[i]) == Some(user));
    assert(after.tokens == Some(tokens.with(state)));
    assert(after.is_anonymous(request.path) == auth.is_anonymous(request.path));
    assert(tokens.with(state).verify_access(token, wall) == Some(user));
    assert(after.bearer_user(Some(bearer), wall) == Some(user));
}

/// Logging out closes it again: no access token of the login is accepted from then on.
pub proof fn law_a_revoked_access_token_is_refused(
    auth: AuthView,
    tokens: token::ServiceView,
    refresh_token: Seq<char>,
    m: MomentView,
    access_token: Seq<char>,
    request: http::RequestView,
    wall: u64,
)
    requires
        auth.tokens == Some(tokens),
        tokens.family_of(refresh_token) is Some,
        token::signed_claims(tokens.secret, access_token) matches Some(c) ==> tokens.family_of(
            refresh_token,
        ) == Some(c.family),
        request.text("authorization"@) == Some("Bearer "@ + access_token),
        access_token.len() > 0,
        auth::name_users(auth.expected),
        !auth.is_anonymous(request.path),
    ensures
        auth.answer_revoke(tokens, refresh_token, m).0.authorize(request, wall) == Err::<
            Seq<char>,
            http::ResponseView,
        >(auth::unauthorized(true, Some(BEARER_INVALID_CHALLENGE@))),
{
    let bearer = "Bearer "@ + access_token;
    lemma_bearer(auth.expected, access_token);
    let after = auth.answer_revoke(tokens, refresh_token, m).0;
    assert(after.is_anonymous(request.path) == auth.is_anonymous(request.path));
    assert(after.bearer_user(Some(bearer), wall) is None);
}

/// What a request is answered by is read and drawn for it: the time since the service started, the
/// time on the wall clock, a new family and a new refresh token.
pub proof fn law_what_a_moment_is(auth: Option<AuthView>, m: MomentView)
    requires
        is_moment(auth, m),
    ensures
        clock::is_wall(m.wall),
        auth matches Some(a) && a.tokens is Some ==> {
            &&& clock::is_elapsed(auth->0.tokens->0.started, m.now)
            &&& token::is_new_family(m.family)
            &&& token::is_fresh(m.fresh)
        },
{
}

} // verus!
