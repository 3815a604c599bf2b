//! What holds of credentials, of the file that lists them, and of who is let in.
use crate::args;
use crate::auth;
use crate::auth::{AuthErrorView, AuthView, CredentialError};
use crate::codec;
use crate::http;
use crate::http::ResponseView;
use crate::target;
use crate::text;
use crate::text_laws;
use crate::token;
use std::path::PathBuf;
use vstd::prelude::*;
use vstd::utf8::*;

verus! {

// ---------------------------------------------------------------------------------------------
// Credentials
// ---------------------------------------------------------------------------------------------

/// A credential is a user name and a password with a colon between them, neither of them empty;
/// the password may hold colons, the name may not.
pub proof fn law_what_a_credential_is(
    credential: Seq<char>,
    user: Seq<char>,
    password: Seq<char>,
)
    requires
        !user.contains(':'),
    ensures
        !credential.contains(':') ==> auth::credential_fault(credential) == Some(
            CredentialError::Form,
        ),
        credential == user + seq![':'] + password ==> auth::credential_fault(credential) == (
        if user.len() == 0 {
            Some(CredentialError::EmptyUser)
        } else if password.len() == 0 {
            Some(CredentialError::EmptyPassword)
        } else {
            None
        }),
        credential == user + seq![':'] + password ==> auth::credential_user(credential) == user,
{
    text_laws::law_cutting_at_the_first(credential, ':', user, password);
    if credential == user + seq![':'] + password {
        text::lemma_first(credential, ':');
    }
}

/// A header presents a user where it is `Basic`, a space, and the Base64 form of the UTF-8 form of
/// a credential with a user name; no other header does.
pub proof fn law_what_a_basic_header_presents(
    authorization: Seq<char>,
    encoded: Seq<char>,
    user: Seq<char>,
    password: Seq<char>,
)
    requires
        !user.contains(':'),
    ensures
        authorization == "Basic "@ + encoded && codec::base64_bytes(encoded) == Some(
            encode_utf8(user + seq![':'] + password),
        ) ==> auth::basic_username(authorization) == (if user.len() > 0 {
            Some(user)
        } else {
            None
        }),
        authorization == "Basic "@ + encoded && codec::base64_bytes(encoded) is None
            ==> auth::basic_username(authorization) is None,
        (forall|e: Seq<char>| authorization != #[trigger] ("Basic "@ + e)) ==> auth::basic_username(
            authorization,
        ) is None,
        auth::basic_username(authorization) matches Some(name) ==> name.len() > 0
            && !name.contains(':'),
{
    text_laws::law_a_prefix_is_taken_off(authorization, "Basic "@, encoded);
    let credential = user + seq![':'] + password;
    encode_utf8_valid_utf8(credential);
    encode_utf8_decode_utf8(credential);
    text_laws::law_cutting_at_the_first(credential, ':', user, password);
    match text::strip_prefix(authorization, "Basic "@) {
        Some(rest) => {
            text_laws::law_a_prefix_is_taken_off(authorization, "Basic "@, rest);
            assert(authorization == "Basic "@ + rest);
            if auth::basic_username(authorization) is Some {
                let c = codec::utf8_text(codec::base64_bytes(rest)->0)->0;
                let (u, p) = text::split_once(c, ':')->0;
                text_laws::law_cutting_at_the_first(c, ':', u, p);
            }
        },
        None => {},
    }
}

/// A header presents a token where it is `Bearer`, a space and the token, which is not empty.
pub proof fn law_what_a_bearer_header_presents(authorization: Seq<char>, token: Seq<char>)
    ensures
        auth::bearer_in(authorization) == Some(token) <==> authorization == "Bearer "@ + token
            && token.len() > 0,
{
    text_laws::law_a_prefix_is_taken_off(authorization, "Bearer "@, token);
}

/// The header of a credential is `Basic`, a space, and the Base64 form of its UTF-8 form.
pub proof fn law_the_header_of_a_credential(credentials: Seq<Seq<char>>, i: int)
    requires
        0 <= i < credentials.len(),
    ensures
        auth::authorizations_of(credentials).len() == credentials.len(),
        auth::authorizations_of(credentials)[i] == "Basic "@ + codec::base64_text(
            encode_utf8(credentials[i]),
        ),
{
}

/// The first credential that is none is reported; where all are credentials nothing is.
pub proof fn law_the_first_bad_credential_is_reported(credentials: Seq<Seq<char>>, i: int)
    ensures
        (forall|j: int|
            0 <= j < credentials.len() ==> auth::credential_fault(#[trigger] credentials[j]) is None)
            ==> auth::credentials_fault(credentials) is None,
        0 <= i < credentials.len() && auth::credential_fault(credentials[i]) is Some && (forall|
            j: int,
        |
            0 <= j < i ==> auth::credential_fault(#[trigger] credentials[j]) is None)
            ==> auth::credentials_fault(credentials) == auth::credential_fault(credentials[i]),
    decreases credentials.len(),
{
    if credentials.len() > 0 {
        let init = credentials.drop_last();
        law_the_first_bad_credential_is_reported(init, i);
        assert forall|j: int| 0 <= j < init.len() implies init[j] == #[trigger] credentials[j] by {}
        if forall|j: int|
            0 <= j < credentials.len() ==> auth::credential_fault(
                #[trigger] credentials[j],
            ) is None {
            assert forall|j: int| 0 <= j < init.len() implies auth::credential_fault(
                #[trigger] init[j],
            ) is None by {
                assert(init[j] == credentials[j]);
            }
        }
        if i == init.len() && (forall|j: int|
            0 <= j < i ==> auth::credential_fault(#[trigger] credentials[j]) is None) {
            assert forall|j: int| 0 <= j < init.len() implies auth::credential_fault(
                #[trigger] init[j],
            ) is None by {
                assert(init[j] == credentials[j]);
            }
        }
        if 0 <= i < init.len() && (forall|j: int|
            0 <= j < i ==> auth::credential_fault(#[trigger] credentials[j]) is None) {
            assert forall|j: int| 0 <= j < i implies auth::credential_fault(
                #[trigger] init[j],
            ) is None by {
                assert(init[j] == credentials[j]);
            }
            assert(init[i] == credentials[i]);
        }
    }
}

// ---------------------------------------------------------------------------------------------
// The credentials file
// ---------------------------------------------------------------------------------------------

/// A line that says something: it is neither blank nor a comment.
pub open spec fn says_something(line: Seq<char>) -> bool {
    text::trimmed(line).len() > 0 && text::trimmed(line)[0] != '#'
}

/// Every line that is neither blank nor a comment gives a credential, wherever it stands and
/// however many stand before it, and nothing else does: the credentials of a file are those lines,
/// trimmed, in their order, and there are as many as there are such lines.
pub proof fn law_every_credential_line_counts(lines: Seq<Seq<char>>, i: int)
    ensures
        0 <= i < lines.len() && says_something(lines[i]) ==> auth::file_credentials(lines).contains(
            text::trimmed(lines[i]),
        ),
        auth::file_credentials(lines) == lines.filter(
            |line: Seq<char>| says_something(line),
        ).map_values(|line: Seq<char>| text::trimmed(line)),
        auth::file_credentials(lines).len() == lines.filter(
            |line: Seq<char>| says_something(line),
        ).len(),
    decreases lines.len(),
{
    let says = |line: Seq<char>| says_something(line);
    let trim = |line: Seq<char>| text::trimmed(line);
    reveal(Seq::filter);
    if lines.len() > 0 {
        let init = lines.drop_last();
        law_every_credential_line_counts(init, i);
        let before = auth::file_credentials(init);
        if says_something(lines.last()) {
            let all = auth::file_credentials(lines);
            assert(all == before.push(text::trimmed(lines.last())));
            assert(lines.filter(says) == init.filter(says).push(lines.last()));
            assert(init.filter(says).push(lines.last()).map_values(trim) =~= init.filter(
                says,
            ).map_values(trim).push(text::trimmed(lines.last())));
            if 0 <= i < init.len() && says_something(lines[i]) {
                let k = before.index_of(text::trimmed(lines[i]));
                assert(all[k] == text::trimmed(lines[i]));
            } else if i == init.len() {
                assert(all[before.len() as int] == text::trimmed(lines[i]));
            }
        }
    }
}

/// The credentials of two files, one behind the other, are those of the first and then those of
/// the second; a file of one line has its text as its credential, or none.
pub proof fn law_credential_lines_follow_each_other(
    a: Seq<Seq<char>>,
    b: Seq<Seq<char>>,
    line: Seq<char>,
)
    ensures
        auth::file_credentials(a + b) == auth::file_credentials(a) + auth::file_credentials(b),
        auth::file_credentials(seq![line]) == (if says_something(line) {
            seq![text::trimmed(line)]
        } else {
            Seq::empty()
        }),
    decreases b.len(),
{
    assert(seq![line].drop_last() =~= Seq::<Seq<char>>::empty());
    assert(auth::file_credentials(seq![line].drop_last()) =~= Seq::empty());
    assert(seq![line].last() == line);
    if b.len() == 0 {
        assert(a + b =~= a);
    } else {
        law_credential_lines_follow_each_other(a, b.drop_last(), line);
        assert((a + b).drop_last() =~= a + b.drop_last());
        assert((a + b).last() == b.last());
    }
}

/// The line numbers count from one, and the first line that should be a credential and is none is
/// reported; a file without such a line is accepted.
pub proof fn law_the_first_bad_line_is_reported(lines: Seq<Seq<char>>, i: int)
    ensures
        (forall|j: int|
            0 <= j < lines.len() && says_something(lines[j]) ==> auth::credential_fault(
                text::trimmed(#[trigger] lines[j]),
            ) is None) ==> auth::file_fault(lines) is None,
        0 <= i < lines.len() && says_something(lines[i]) && auth::credential_fault(
            text::trimmed(lines[i]),
        ) is Some && (forall|j: int|
            0 <= j < i && says_something(lines[j]) ==> auth::credential_fault(
                text::trimmed(#[trigger] lines[j]),
            ) is None) ==> auth::file_fault(lines) == Some(
            ((i + 1) as nat, auth::credential_fault(text::trimmed(lines[i]))->0),
        ),
    decreases lines.len(),
{
    if lines.len() > 0 {
        let init = lines.drop_last();
        law_the_first_bad_line_is_reported(init, i);
        if forall|j: int|
            0 <= j < lines.len() && says_something(lines[j]) ==> auth::credential_fault(
                text::trimmed(#[trigger] lines[j]),
            ) is None {
            assert forall|j: int| 0 <= j < init.len() && says_something(init[j]) implies auth::credential_fault(
            text::trimmed(#[trigger] init[j])) is None by {
                assert(init[j] == lines[j]);
            }
            assert(lines[init.len() as int] == lines.last());
        }
        if 0 <= i < lines.len() && (forall|j: int|
            0 <= j < i && says_something(lines[j]) ==> auth::credential_fault(
                text::trimmed(#[trigger] lines[j]),
            ) is None) {
            assert forall|j: int|
                0 <= j < i && j < init.len() && says_something(init[j]) implies auth::credential_fault(
            text::trimmed(#[trigger] init[j])) is None by {
                assert(init[j] == lines[j]);
            }
            if i < init.len() {
                assert(init[i] == lines[i]);
            }
        }
    }
}

/// What is loaded from a file is the header of each of its credential lines, in their order and
/// nothing more; or the first bad line, with its number.
pub proof fn law_loading_a_file(contents: Seq<char>, i: int)
    ensures
        match auth::file_authorizations(contents) {
            Ok(headers) => {
                let lines = text::lines_of(contents);
                &&& auth::file_fault(lines) is None
                &&& headers.len() == lines.filter(|line: Seq<char>| says_something(line)).len()
                &&& 0 <= i < lines.len() && says_something(lines[i]) ==> headers.contains(
                    "Basic "@ + codec::base64_text(encode_utf8(text::trimmed(lines[i]))),
                )
                &&& 0 <= i < headers.len() ==> headers[i] == "Basic "@ + codec::base64_text(
                    encode_utf8(
                        text::trimmed(lines.filter(|line: Seq<char>| says_something(line))[i]),
                    ),
                )
            },
            Err(fault) => auth::file_fault(text::lines_of(contents)) == Some(fault),
        },
{
    let lines = text::lines_of(contents);
    law_every_credential_line_counts(lines, i);
    let credentials = auth::file_credentials(lines);
    let headers = auth::authorizations_of(credentials);
    if 0 <= i < lines.len() && says_something(lines[i]) {
        let k = credentials.index_of(text::trimmed(lines[i]));
        assert(headers[k] == "Basic "@ + codec::base64_text(
            encode_utf8(text::trimmed(lines[i])),
        ));
    }
}

// ---------------------------------------------------------------------------------------------
// The configuration
// ---------------------------------------------------------------------------------------------

/// Accepted are the fixed headers and then those of the file, where one is configured: an
/// unreadable file, a bad line and the lack of any credential are errors.
pub proof fn law_the_accepted_headers(
    fixed: Seq<Seq<char>>,
    contents: Seq<char>,
    cause: Seq<char>,
    unread: Result<Seq<char>, Seq<char>>,
)
    ensures
        auth::accepted(fixed, true, Ok(contents)) == (match auth::file_authorizations(contents) {
            Ok(headers) => if fixed.len() == 0 && headers.len() == 0 {
                Err(AuthErrorView::NoCredentials)
            } else {
                Ok(fixed + headers)
            },
            Err(fault) => Err(AuthErrorView::FileCredential { line: fault.0, error: fault.1 }),
        }),
        auth::accepted(fixed, true, Err(cause)) == Err::<Seq<Seq<char>>, AuthErrorView>(
            AuthErrorView::FileRead { cause },
        ),
        auth::accepted(fixed, false, unread) == (if fixed.len() == 0 {
            Err::<Seq<Seq<char>>, AuthErrorView>(AuthErrorView::NoCredentials)
        } else {
            Ok(fixed)
        }),
{
    assert(fixed + Seq::<Seq<char>>::empty() =~= fixed);
}

/// The configuration holds a header for every configured credential and for every line of the
/// file, and the written form of every anonymous target; there are no tokens yet. Where a
/// credential, the file or a target is at fault, that is the outcome, in this order.
pub proof fn law_what_is_configured(
    basic_auth: Seq<Seq<char>>,
    file: Option<PathBuf>,
    targets: Seq<Seq<char>>,
    contents: Result<Seq<char>, Seq<char>>,
    i: int,
)
    requires
        basic_auth.len() > 0 || file is Some,
    ensures
        ({
            let fixed = auth::authorizations_of(basic_auth);
            let r = auth::configured_auth(basic_auth, file, targets, contents);
            match auth::credentials_fault(basic_auth) {
                Some(error) => r == Err::<Option<AuthView>, AuthErrorView>(
                    AuthErrorView::Credential { error },
                ),
                None => match auth::accepted(fixed, file is Some, contents) {
                    Err(e) => r == Err::<Option<AuthView>, AuthErrorView>(e),
                    Ok(expected) => match args::bad_target(targets) {
                        Some(bad) => r == Err::<Option<AuthView>, AuthErrorView>(
                            AuthErrorView::AnonymousTarget { target: bad.0, error: bad.1 },
                        ),
                        None => {
                            &&& r matches Ok(Some(config))
                            &&& config.expected == expected
                            &&& config.fixed == fixed
                            &&& config.file == file
                            &&& config.tokens is None
                            &&& config.anonymous.len() == targets.len()
                            &&& 0 <= i < targets.len() ==> {
                                let t = target::target_of_addr(targets[i])->Ok_0;
                                config.anonymous[i] == t.host + seq![':'] + text::decimal(t.port)
                            }
                        },
                    },
                },
            }
        }),
{
}

/// The first target that is none is reported; where all are targets nothing is.
pub proof fn law_the_first_bad_target_is_reported(targets: Seq<Seq<char>>, i: int)
    ensures
        (forall|j: int|
            0 <= j < targets.len() ==> target::target_of_addr(#[trigger] targets[j]) is Ok)
            ==> args::bad_target(targets) is None,
        0 <= i < targets.len() && target::target_of_addr(targets[i]) is Err && (forall|j: int|
            0 <= j < i ==> target::target_of_addr(#[trigger] targets[j]) is Ok)
            ==> args::bad_target(targets) == Some(
            (targets[i], target::target_of_addr(targets[i])->Err_0),
        ),
    decreases targets.len(),
{
    if targets.len() > 0 {
        let rest = targets.skip(1);
        law_the_first_bad_target_is_reported(rest, i - 1);
        if forall|j: int|
            0 <= j < targets.len() ==> target::target_of_addr(#[trigger] targets[j]) is Ok {
            assert forall|j: int| 0 <= j < rest.len() implies target::target_of_addr(
                #[trigger] rest[j],
            ) is Ok by {
                assert(rest[j] == targets[j + 1]);
            }
            assert(target::target_of_addr(targets[0]) is Ok);
        }
        if 0 < i < targets.len() && (forall|j: int|
            0 <= j < i ==> target::target_of_addr(#[trigger] targets[j]) is Ok) {
            assert forall|j: int| 0 <= j < i - 1 implies target::target_of_addr(
                #[trigger] rest[j],
            ) is Ok by {
                assert(rest[j] == targets[j + 1]);
            }
            assert(target::target_of_addr(targets[0]) is Ok);
            assert(rest[i - 1] == targets[i]);
        }
    }
}

/// Loading the file again replaces the accepted headers and nothing else.
pub proof fn law_reloading_changes_the_accepted_headers_alone(
    config: AuthView,
    expected: Seq<Seq<char>>,
)
    ensures
        ({
            let after = config.with_expected(expected);
            &&& after.expected == expected
            &&& after.fixed == config.fixed
            &&& after.file == config.file
            &&& after.anonymous == config.anonymous
            &&& after.tokens == config.tokens
        }),
{
}

// ---------------------------------------------------------------------------------------------
// Who is let in
// ---------------------------------------------------------------------------------------------

/// The refusal asks for authentication, with a challenge for each way that is open.
pub proof fn law_what_a_refusal_says(challenge: Seq<char>)
    ensures
        ({
            let body = Some("authentication required"@);
            let basic = (
                "www-authenticate"@,
                "Basic realm=\"ws2tcp-router\", charset=\"UTF-8\""@,
            );
            let bearer = ("www-authenticate"@, challenge);
            &&& auth::unauthorized(true, None) == (ResponseView {
                status: 401,
                headers: seq![basic],
                body,
            })
            &&& auth::unauthorized(true, Some(challenge)) == (ResponseView {
                status: 401,
                headers: seq![basic, bearer],
                body,
            })
            &&& auth::unauthorized(false, Some(challenge)) == (ResponseView {
                status: 401,
                headers: seq![bearer],
                body,
            })
            &&& auth::unauthorized(false, None) == (ResponseView {
                status: 401,
                headers: Seq::empty(),
                body,
            })
        }),
{
    let basic = ("www-authenticate"@, "Basic realm=\"ws2tcp-router\", charset=\"UTF-8\""@);
    let bearer = ("www-authenticate"@, challenge);
    assert(Seq::empty().push(basic) =~= seq![basic]);
    assert(Seq::empty().push(basic).push(bearer) =~= seq![basic, bearer]);
    assert(Seq::empty().push(bearer) =~= seq![bearer]);
}

/// A TCP path is open to everyone where its target is among the anonymous ones, whichever way its
/// port is written; no other path is.
pub proof fn law_which_paths_are_open(config: AuthView, path: Seq<char>, addr: Seq<char>)
    ensures
        path == "/tcp:"@ + addr ==> (config.is_anonymous(path) <==> {
            &&& target::target_of_addr(addr) matches Ok(t)
            &&& config.anonymous.contains(t.host + seq![':'] + text::decimal(t.port))
        }),
        (forall|a: Seq<char>| path != #[trigger] ("/tcp:"@ + a)) ==> !config.is_anonymous(path),
{
    text_laws::law_a_prefix_is_taken_off(path, "/tcp:"@, addr);
    match text::strip_prefix(path, "/tcp:"@) {
        Some(rest) => {
            text_laws::law_a_prefix_is_taken_off(path, "/tcp:"@, rest);
            assert(path == "/tcp:"@ + rest);
        },
        None => {},
    }
}

/// A user exists where an accepted header presents that name.
pub proof fn law_who_is_a_user(config: AuthView, user: Seq<char>, i: int)
    ensures
        0 <= i < config.expected.len() && auth::basic_username(config.expected[i]) == Some(user)
            ==> config.has_user(user),
        (forall|j: int|
            0 <= j < config.expected.len() ==> auth::basic_username(#[trigger] config.expected[j])
                != Some(user)) ==> !config.has_user(user),
{
}

/// An access token stands for a user where it carries the service's signature, has not expired by
/// the wall clock, its family is not revoked and its user exists; otherwise for nobody.
pub proof fn law_whom_an_access_token_stands_for(
    config: AuthView,
    service: token::ServiceView,
    access_token: Seq<char>,
    wall: u64,
)
    requires
        config.tokens == Some(service),
        access_token.len() > 0,
    ensures
        config.bearer_user(Some("Bearer "@ + access_token), wall) == (match token::signed_claims(
            service.secret,
            access_token,
        ) {
            Some(c) => if wall < c.expires && !service.state.revoked.contains_key(c.family)
                && config.has_user(c.user) {
                Some(c.user)
            } else {
                None
            },
            None => None,
        }),
{
    law_what_a_bearer_header_presents("Bearer "@ + access_token, access_token);
}

/// The decision on a request: an open path lets everyone in, as nobody; an accepted header lets
/// its user in; a valid access token lets its user in; everyone else is refused, with a challenge
/// for Basic credentials and, where there are tokens, one for tokens, which says whether a token
/// was presented.
pub proof fn law_who_is_let_in(
    config: AuthView,
    request: http::RequestView,
    wall: u64,
    header: Seq<char>,
    user: Seq<char>,
    access_token: Seq<char>,
)
    ensures
        ({
            let r = config.authorize(request, wall);
            let given = request.text("authorization"@);
            let open = config.is_anonymous(request.path);
            let invalid = "Bearer realm=\"ws2tcp-router\", error=\"invalid_token\""@;
            let plain = "Bearer realm=\"ws2tcp-router\""@;
            let known = given matches Some(a) && config.expected.contains(a);
            let nobody = config.bearer_user(given, wall) is None;
            &&& open ==> r == Ok::<Seq<char>, ResponseView>("anonymous"@)
            &&& !open && given == Some(header) && config.expected.contains(header)
                && auth::basic_username(header) == Some(user) ==> r == Ok::<
                Seq<char>,
                ResponseView,
            >(user)
            &&& !open && !known && config.bearer_user(given, wall) == Some(user) ==> r == Ok::<
                Seq<char>,
                ResponseView,
            >(user)
            &&& !open && !known && config.tokens is None ==> r == Err::<Seq<char>, ResponseView>(
                auth::unauthorized(true, None),
            )
            &&& !open && !known && nobody && config.tokens is Some && given == Some(
                "Bearer "@ + access_token,
            ) && access_token.len() > 0 ==> r == Err::<Seq<char>, ResponseView>(
                auth::unauthorized(true, Some(invalid)),
            )
            &&& !open && !known && nobody && config.tokens is Some && given is None ==> r == Err::<
                Seq<char>,
                ResponseView,
            >(auth::unauthorized(true, Some(plain)))
            &&& !open && !known && nobody && config.tokens is Some && given == Some(
                "Basic "@ + header,
            ) ==> r == Err::<Seq<char>, ResponseView>(auth::unauthorized(true, Some(plain)))
        }),
        auth::authorized(request, Some(config), wall) == config.authorize(request, wall),
        auth::authorized(request, None, wall) == Ok::<Seq<char>, ResponseView>("anonymous"@),
{
    law_what_a_bearer_header_presents("Bearer "@ + access_token, access_token);
    let b = "Basic "@ + header;
    assert(auth::bearer_in(b) is None) by {
        reveal_strlit("Basic ");
        reveal_strlit("Bearer ");
        if auth::bearer_in(b) is Some {
            law_what_a_bearer_header_presents(b, auth::bearer_in(b)->0);
            let c = "Bearer "@ + auth::bearer_in(b)->0;
            assert(b[1] == 'a');
            assert(c[1] == 'e');
        }
    }
}

/// A request is logged under the name that it presents, valid or not; under `anonymous` where it
/// presents none, and under `invalid` where what it presents cannot be read.
pub proof fn law_who_a_request_says_it_is(header: Seq<char>, user: Seq<char>)
    ensures
        auth::claimed_user(None) == "anonymous"@,
        auth::basic_username(header) == Some(user) ==> auth::claimed_user(Some(header)) == user,
        auth::basic_username(header) is None ==> auth::claimed_user(Some(header)) == "invalid"@,
{
}

/// Only an accepted header logs a user in.
pub proof fn law_who_may_log_in(config: AuthView, header: Seq<char>, user: Seq<char>)
    ensures
        config.basic_user(header) == Some(user) <==> config.expected.contains(header)
            && auth::basic_username(header) == Some(user),
{
}

/// The errors say what is wrong, and where.
pub proof fn law_what_the_errors_say(
    path: Seq<char>,
    cause: Seq<char>,
    line: nat,
    error: CredentialError,
)
    ensures
        (AuthErrorView::FileRead { cause }).text(path) == "failed to read basic auth file "@ + path
            + ": "@ + cause,
        (AuthErrorView::FileCredential { line, error }).text(path)
            == "invalid basic auth credential in "@ + path + " at line "@ + text::decimal(line)
            + ": "@ + error.spec_text(),
        (AuthErrorView::Credential { error }).text(path) == error.spec_text(),
        AuthErrorView::NoCredentials.text(path)
            == "basic auth is enabled, but no credentials were configured"@,
        CredentialError::Form.spec_text() == "basic auth credential must be formatted as USER:PASS"@,
        CredentialError::EmptyUser.spec_text() == "basic auth username must not be empty"@,
        CredentialError::EmptyPassword.spec_text() == "basic auth password must not be empty"@,
{
}

} // verus!
