//! Who may use the router: HTTP Basic credentials, access tokens, and targets that are open to
//! everyone.
use crate::args;
use crate::args::Args;
use crate::clock;
use crate::codec;
use crate::http;
use crate::http::{Request, Response};
use crate::target;
use crate::target::TargetError;
use crate::text;
use crate::token;
use crate::token::TokenService;
use std::path::PathBuf;
use vstd::prelude::*;
use vstd::slice::slice_subrange;
use vstd::utf8::*;

verus! {

/// `PathBuf::clone` duplicates the path.
pub assume_specification[ <std::path::PathBuf as Clone>::clone ](
    p: &std::path::PathBuf,
) -> (r: std::path::PathBuf)
    ensures
        r == *p,
;

pub const ANONYMOUS_AUTH_USER: &'static str = "anonymous";

pub const INVALID_AUTH_USER: &'static str = "invalid";

pub const BASIC_CHALLENGE: &'static str = "Basic realm=\"ws2tcp-router\", charset=\"UTF-8\"";

pub const BEARER_CHALLENGE: &'static str = "Bearer realm=\"ws2tcp-router\"";

pub const BEARER_INVALID_CHALLENGE: &'static str =
    "Bearer realm=\"ws2tcp-router\", error=\"invalid_token\"";

// ---------------------------------------------------------------------------------------------
// Credentials
// ---------------------------------------------------------------------------------------------

/// Why a text is not a credential.
#[derive(Debug, Clone, Copy, PartialEq, Eq, Structural)]
pub enum CredentialError {
    Form,
    EmptyUser,
    EmptyPassword,
}

impl CredentialError {
    /// What the error says.
    pub open spec fn spec_text(self) -> Seq<char> {
        match self {
            CredentialError::Form => "basic auth credential must be formatted as USER:PASS"@,
            CredentialError::EmptyUser => "basic auth username must not be empty"@,
            CredentialError::EmptyPassword => "basic auth password must not be empty"@,
        }
    }

    /// What the error says.
    pub fn text(&self) -> (r: String)
        ensures
            r@ == self.spec_text(),
    {
        match self {
            CredentialError::Form =>
                "basic auth credential must be formatted as USER:PASS".to_owned(),
            CredentialError::EmptyUser => "basic auth username must not be empty".to_owned(),
            CredentialError::EmptyPassword => "basic auth password must not be empty".to_owned(),
        }
    }
}

/// What is wrong with a credential, if anything is: it is a user name and a password with a
/// colon between them, neither of them empty.
pub open spec fn credential_fault(credential: Seq<char>) -> Option<CredentialError> {
    match text::split_once(credential, ':') {
        None => Some(CredentialError::Form),
        Some((user, password)) => if user.len() == 0 {
            Some(CredentialError::EmptyUser)
        } else if password.len() == 0 {
            Some(CredentialError::EmptyPassword)
        } else {
            None
        },
    }
}

/// The user name in a credential.
pub open spec fn credential_user(credential: Seq<char>) -> Seq<char> {
    credential.take(text::first(credential, ':'))
}

/// Checks a credential.
pub fn validate_basic_auth_credential(credential: &str) -> (r: Result<(), CredentialError>)
    ensures
        match r {
            Ok(_) => credential_fault(credential@) is None,
            Err(e) => credential_fault(credential@) == Some(e),
        },
{
    let chars = text::chars_of(credential);
    let colon: usize = text::find(&chars, ':');
    if colon == chars.len() {
        return Err(CredentialError::Form);
    }
    if colon == 0 {
        return Err(CredentialError::EmptyUser);
    }
    if colon + 1 == chars.len() {
        return Err(CredentialError::EmptyPassword);
    }
    Ok(())
}

/// The `Authorization` header that presents a credential.
pub open spec fn authorization_of(credential: Seq<char>) -> Seq<char> {
    "Basic "@ + codec::base64_text(encode_utf8(credential))
}

/// The user name in an `Authorization` header with Basic credentials.
pub open spec fn basic_username(authorization: Seq<char>) -> Option<Seq<char>> {
    match text::strip_prefix(authorization, "Basic "@) {
        None => None,
        Some(encoded) => match codec::base64_bytes(encoded) {
            None => None,
            Some(bytes) => match codec::utf8_text(bytes) {
                None => None,
                Some(credential) => match text::split_once(credential, ':') {
                    None => None,
                    Some((user, _)) => if user.len() == 0 {
                        None
                    } else {
                        Some(user)
                    },
                },
            },
        },
    }
}

/// The user name in an `Authorization` header with Basic credentials.
pub fn basic_auth_username(authorization: &str) -> (r: Option<String>)
    ensures
        text::optional(r) == basic_username(authorization@),
        codec::within_limits(authorization@.len()) ==> (r matches Some(user) ==> token::user_fits(
            user@,
        )),
{
    let chars = text::chars_of(authorization);
    let encoded = match text::after_prefix(&chars, "Basic ") {
        Some(encoded) => encoded,
        None => return None,
    };
    let decoded = match codec::base64_decode(text::string_of(encoded).as_str()) {
        Ok(decoded) => decoded,
        Err(_) => return None,
    };
    let credential = match codec::utf8_string(&decoded) {
        Some(credential) => credential,
        None => return None,
    };
    let credential = text::chars_of(credential.as_str());
    let colon: usize = text::find(&credential, ':');
    if colon == credential.len() || colon == 0 {
        return None;
    }
    let user = slice_subrange(&credential, 0, colon);
    proof {
        broadcast use decode_utf8_encode_utf8;

        assert(user@ =~= credential@.take(colon as int));
        codec::lemma_utf8_prefix(credential@, colon as int);
        assert(encode_utf8(credential@) == decoded@);
    }
    Some(text::string_of(user))
}

/// The token in an `Authorization` header with a Bearer credential.
pub open spec fn bearer_in(authorization: Seq<char>) -> Option<Seq<char>> {
    match text::strip_prefix(authorization, "Bearer "@) {
        Some(token) => if token.len() == 0 {
            None
        } else {
            Some(token)
        },
        None => None,
    }
}

/// The token in an `Authorization` header with a Bearer credential.
pub fn bearer_token(authorization: &str) -> (r: Option<String>)
    ensures
        text::optional(r) == bearer_in(authorization@),
{
    let chars = text::chars_of(authorization);
    match text::after_prefix(&chars, "Bearer ") {
        Some(token) => if token.len() == 0 {
            None
        } else {
            Some(text::string_of(token))
        },
        None => None,
    }
}

/// The first fault of credentials, if any.
pub open spec fn credentials_fault(credentials: Seq<Seq<char>>) -> Option<CredentialError>
    decreases credentials.len(),
{
    if credentials.len() == 0 {
        None
    } else {
        match credentials_fault(credentials.drop_last()) {
            Some(e) => Some(e),
            None => credential_fault(credentials.last()),
        }
    }
}

/// The `Authorization` headers that present credentials.
pub open spec fn authorizations_of(credentials: Seq<Seq<char>>) -> Seq<Seq<char>> {
    credentials.map_values(|c: Seq<char>| authorization_of(c))
}

/// Each header names a user.
pub open spec fn name_users(authorizations: Seq<Seq<char>>) -> bool {
    forall|i: int| 0 <= i < authorizations.len() ==> basic_username(#[trigger] authorizations[i]) is Some
}

/// The base64 text of a credential stands for that credential.
pub open spec fn decodes(credential: Seq<char>) -> bool {
    codec::base64_bytes(codec::base64_text(encode_utf8(credential))) == Some(
        encode_utf8(credential),
    )
}

/// The headers are those of the credentials, and each names the user of its own credential.
pub open spec fn present_users(
    authorizations: Seq<Seq<char>>,
    credentials: Seq<Seq<char>>,
) -> bool {
    &&& authorizations == authorizations_of(credentials)
    &&& forall|i: int|
        0 <= i < credentials.len() ==> decodes(#[trigger] credentials[i]) && basic_username(
            authorizations[i],
        ) == Some(credential_user(credentials[i]))
}

/// Lists of headers and of their credentials can be joined.
proof fn lemma_present_users(
    a: Seq<Seq<char>>,
    x: Seq<Seq<char>>,
    b: Seq<Seq<char>>,
    y: Seq<Seq<char>>,
)
    requires
        present_users(a, x),
        present_users(b, y),
    ensures
        present_users(a + b, x + y),
{
    assert(a + b =~= authorizations_of(x + y));
    assert forall|i: int| 0 <= i < (x + y).len() implies decodes(#[trigger] (x + y)[i])
        && basic_username((a + b)[i]) == Some(credential_user((x + y)[i])) by {
        if i < x.len() {
            assert((x + y)[i] == x[i] && (a + b)[i] == a[i]);
        } else {
            assert((x + y)[i] == y[i - x.len()] && (a + b)[i] == b[i - x.len()]);
        }
    }
}

/// The `Authorization` header that presents a credential.
fn encode_credential(credential: &str) -> (r: String)
    requires
        codec::text_fits(credential@),
        credential_fault(credential@) is None,
    ensures
        r@ == authorization_of(credential@),
        decodes(credential@),
        basic_username(r@) == Some(credential_user(credential@)),
{
    proof {
        codec::lemma_utf8_bound(credential@);
    }
    let encoded = codec::base64_encode(codec::utf8_bytes(credential));
    let mut r = "Basic ".to_owned();
    r.append(encoded.as_str());
    proof {
        broadcast use {encode_utf8_valid_utf8, encode_utf8_decode_utf8};

        assert(r@.take("Basic "@.len() as int) =~= "Basic "@);
        assert(r@.skip("Basic "@.len() as int) =~= encoded@);
    }
    r
}

/// The `Authorization` headers that present the credentials.
pub fn encode_credentials(credentials: &[String]) -> (r: Result<Vec<String>, CredentialError>)
    requires
        forall|i: int|
            0 <= i < credentials@.len() ==> codec::text_fits((#[trigger] credentials@[i])@),
    ensures
        match r {
            Ok(v) => credentials_fault(text::strings(credentials@)) is None && present_users(
                text::strings(v@),
                text::strings(credentials@),
            ) && name_users(text::strings(v@)),
            Err(e) => credentials_fault(text::strings(credentials@)) == Some(e),
        },
{
    let ghost all = text::strings(credentials@);
    let mut out: Vec<String> = Vec::new();
    let mut i: usize = 0;
    proof {
        assert(all.take(0) =~= Seq::empty());
        assert(text::strings(out@) =~= authorizations_of(all.take(0)));
    }
    while i < credentials.len()
        invariant
            i <= credentials@.len(),
            all == text::strings(credentials@),
            forall|j: int|
                0 <= j < credentials@.len() ==> codec::text_fits((#[trigger] credentials@[j])@),
            out@.len() == i,
            credentials_fault(all.take(i as int)) is None,
            forall|j: int|
                0 <= j < i ==> (#[trigger] out@[j])@ == authorization_of(credentials@[j]@),
            forall|j: int|
                0 <= j < i ==> decodes(credentials@[j]@) && basic_username((#[trigger] out@[j])@)
                    == Some(credential_user(credentials@[j]@)),
        decreases credentials.len() - i,
    {
        proof {
            let t = all.take(i + 1);
            assert(t.drop_last() =~= all.take(i as int));
            assert(t.last() == credentials@[i as int]@);
        }
        match validate_basic_auth_credential(credentials[i].as_str()) {
            Ok(_) => {},
            Err(e) => {
                proof {
                    lemma_fault_stays(all, i + 1);
                }
                return Err(e);
            },
        }
        out.push(encode_credential(credentials[i].as_str()));
        i += 1;
    }
    assert(all.take(all.len() as int) =~= all);
    assert(text::strings(out@) =~= authorizations_of(all));
    proof {
        let made = text::strings(out@);
        assert forall|j: int| 0 <= j < all.len() implies decodes(#[trigger] all[j])
            && basic_username(made[j]) == Some(credential_user(all[j])) by {
            assert(made[j] == out@[j]@ && all[j] == credentials@[j]@);
        }
    }
    Ok(out)
}

/// The first fault stays the first.
proof fn lemma_fault_stays(credentials: Seq<Seq<char>>, n: int)
    requires
        0 <= n <= credentials.len(),
        credentials_fault(credentials.take(n)) is Some,
    ensures
        credentials_fault(credentials) == credentials_fault(credentials.take(n)),
    decreases credentials.len(),
{
    if n < credentials.len() {
        assert(credentials.drop_last().take(n) =~= credentials.take(n));
        lemma_fault_stays(credentials.drop_last(), n);
    } else {
        assert(credentials.take(n) =~= credentials);
    }
}

// ---------------------------------------------------------------------------------------------
// The credentials file
// ---------------------------------------------------------------------------------------------

/// A line of a credentials file holds a credential, unless it is blank or a comment.
pub open spec fn is_credential_line(line: Seq<char>) -> bool {
    text::trimmed(line).len() > 0 && text::trimmed(line)[0] != '#'
}

/// The credentials in the lines of a file.
pub open spec fn file_credentials(lines: Seq<Seq<char>>) -> Seq<Seq<char>>
    decreases lines.len(),
{
    if lines.len() == 0 {
        Seq::empty()
    } else if is_credential_line(lines.last()) {
        file_credentials(lines.drop_last()).push(text::trimmed(lines.last()))
    } else {
        file_credentials(lines.drop_last())
    }
}

/// The first line of a file with a credential that is none, counted from 1, and why.
pub open spec fn file_fault(lines: Seq<Seq<char>>) -> Option<(nat, CredentialError)>
    decreases lines.len(),
{
    if lines.len() == 0 {
        None
    } else {
        match file_fault(lines.drop_last()) {
            Some(fault) => Some(fault),
            None => if is_credential_line(lines.last()) {
                match credential_fault(text::trimmed(lines.last())) {
                    Some(e) => Some((lines.len(), e)),
                    None => None,
                }
            } else {
                None
            },
        }
    }
}

/// The `Authorization` headers that present the credentials in a file.
pub open spec fn file_authorizations(contents: Seq<char>) -> Result<
    Seq<Seq<char>>,
    (nat, CredentialError),
> {
    match file_fault(text::lines_of(contents)) {
        Some(fault) => Err(fault),
        None => Ok(authorizations_of(file_credentials(text::lines_of(contents)))),
    }
}

/// The first fault of a file stays the first.
proof fn lemma_file_fault_stays(lines: Seq<Seq<char>>, n: int)
    requires
        0 <= n <= lines.len(),
        file_fault(lines.take(n)) is Some,
    ensures
        file_fault(lines) == file_fault(lines.take(n)),
    decreases lines.len(),
{
    if n < lines.len() {
        assert(lines.drop_last().take(n) =~= lines.take(n));
        lemma_file_fault_stays(lines.drop_last(), n);
    } else {
        assert(lines.take(n) =~= lines);
    }
}

/// The credentials in a file without faults have none.
proof fn lemma_file_credentials(lines: Seq<Seq<char>>)
    requires
        file_fault(lines) is None,
    ensures
        credentials_fault(file_credentials(lines)) is None,
    decreases lines.len(),
{
    if lines.len() > 0 {
        lemma_file_credentials(lines.drop_last());
        if is_credential_line(lines.last()) {
            assert(file_credentials(lines).drop_last() =~= file_credentials(lines.drop_last()));
        }
    }
}

/// The `Authorization` headers that present the credentials in a file with the given contents.
/// Where a credential is none, its line is given, counted from 1.
pub fn load_auth_file(contents: &str) -> (r: Result<Vec<String>, (usize, CredentialError)>)
    requires
        codec::text_fits(contents@),
    ensures
        match r {
            Ok(v) => file_authorizations(contents@) == Ok::<
                Seq<Seq<char>>,
                (nat, CredentialError),
            >(text::strings(v@)) && name_users(text::strings(v@)) && present_users(
                text::strings(v@),
                file_credentials(text::lines_of(contents@)),
            ),
            Err((line, e)) => file_authorizations(contents@) == Err::<
                Seq<Seq<char>>,
                (nat, CredentialError),
            >((line as nat, e)),
        },
{
    let chars = text::chars_of(contents);
    let lines = text::lines(&chars);
    let ghost all = text::texts(lines@);
    let mut credentials: Vec<String> = Vec::new();
    let mut i: usize = 0;
    proof {
        text::lemma_lines_len(contents@);
        assert(all.take(0) =~= Seq::empty());
        assert(text::strings(credentials@) =~= Seq::empty());
    }
    while i < lines.len()
        invariant
            i <= lines@.len(),
            codec::text_fits(contents@),
            all == text::texts(lines@),
            all == text::lines_of(contents@),
            forall|j: int| 0 <= j < all.len() ==> (#[trigger] all[j]).len() <= contents@.len(),
            file_fault(all.take(i as int)) is None,
            text::strings(credentials@) == file_credentials(all.take(i as int)),
            forall|j: int|
                0 <= j < credentials@.len() ==> codec::text_fits((#[trigger] credentials@[j])@),
        decreases lines.len() - i,
    {
        let ghost before = text::strings(credentials@);
        proof {
            let t = all.take(i + 1);
            assert(t.drop_last() =~= all.take(i as int));
            assert(t.last() == lines@[i as int]@);
            assert(all[i as int].len() <= contents@.len());
            text::lemma_trimmed_len(all[i as int]);
        }
        let credential = text::trim(&lines[i]);
        if credential.len() > 0 && credential[0] != '#' {
            let credential = text::string_of(credential);
            match validate_basic_auth_credential(credential.as_str()) {
                Ok(_) => {},
                Err(e) => {
                    proof {
                        lemma_file_fault_stays(all, i + 1);
                    }
                    return Err((i + 1, e));
                },
            }
            credentials.push(credential);
            assert(text::strings(credentials@) =~= before.push(credential@));
        }
        i += 1;
    }
    assert(all.take(all.len() as int) =~= all);
    proof {
        lemma_file_credentials(all);
    }
    match encode_credentials(&credentials) {
        Ok(v) => Ok(v),
        Err(e) => Err((0, e)),
    }
}

// ---------------------------------------------------------------------------------------------
// The configuration
// ---------------------------------------------------------------------------------------------

/// Why authentication cannot be configured.
#[derive(Debug, PartialEq, Eq)]
pub enum AuthError {
    /// A configured credential is none.
    Credential { error: CredentialError },
    /// The credentials file cannot be read.
    FileRead { cause: String },
    /// A line of the credentials file is no credential.
    FileCredential { line: usize, error: CredentialError },
    /// There are no credentials.
    NoCredentials,
    /// An anonymous target is none.
    AnonymousTarget { target: String, error: TargetError },
}

/// Why authentication cannot be configured.
pub enum AuthErrorView {
    Credential { error: CredentialError },
    FileRead { cause: Seq<char> },
    FileCredential { line: nat, error: CredentialError },
    NoCredentials,
    AnonymousTarget { target: Seq<char>, error: target::TargetErrorView },
}

impl View for AuthError {
    type V = AuthErrorView;

    open spec fn view(&self) -> AuthErrorView {
        match self {
            AuthError::Credential { error } => AuthErrorView::Credential { error: *error },
            AuthError::FileRead { cause } => AuthErrorView::FileRead { cause: cause@ },
            AuthError::FileCredential { line, error } => AuthErrorView::FileCredential {
                line: *line as nat,
                error: *error,
            },
            AuthError::NoCredentials => AuthErrorView::NoCredentials,
            AuthError::AnonymousTarget { target, error } => AuthErrorView::AnonymousTarget {
                target: target@,
                error: error@,
            },
        }
    }
}

impl AuthErrorView {
    /// What the error says, where the credentials file is at `path`.
    pub open spec fn text(self, path: Seq<char>) -> Seq<char> {
        match self {
            AuthErrorView::Credential { error } => error.spec_text(),
            AuthErrorView::FileRead { cause } => "failed to read basic auth file "@ + path + ": "@
                + cause,
            AuthErrorView::FileCredential { line, error } =>
            "invalid basic auth credential in "@ + path + " at line "@ + text::decimal(line) + ": "@
                + error.spec_text(),
            AuthErrorView::NoCredentials =>
            "basic auth is enabled, but no credentials were configured"@,
            AuthErrorView::AnonymousTarget { target, error } => args::anonymous_target_text(
                target,
                error,
            ),
        }
    }
}

impl AuthError {
    /// What the error says, where the credentials file is at `path`.
    pub fn text(&self, path: &str) -> (r: String)
        ensures
            r@ == self@.text(path@),
    {
        match self {
            AuthError::Credential { error } => error.text(),
            AuthError::FileRead { cause } =>
                "failed to read basic auth file ".to_owned().concat(path).concat(": ").concat(
                cause.as_str(),
            ),
            AuthError::FileCredential { line, error } =>
                "invalid basic auth credential in ".to_owned().concat(path).concat(
                " at line ",
            ).concat(text::decimal_string(*line as u64).as_str()).concat(": ").concat(
                error.text().as_str(),
            ),
            AuthError::NoCredentials =>
                "basic auth is enabled, but no credentials were configured".to_owned(),
            AuthError::AnonymousTarget { target, error } => args::anonymous_target_message(
                target.as_str(),
                error,
            ),
        }
    }
}

/// Who may use the router.
pub struct AuthConfig {
    /// The `Authorization` headers that are accepted.
    pub expected_authorizations: Vec<String>,
    /// Those of them that do not come from the credentials file.
    pub fixed_authorizations: Vec<String>,
    pub basic_auth_file: Option<PathBuf>,
    /// The targets that need no authentication.
    pub anonymous_targets: Vec<String>,
    /// Where tokens are accepted next to Basic credentials.
    pub tokens: Option<TokenService>,
}

/// What an authentication configuration holds.
pub struct AuthView {
    pub expected: Seq<Seq<char>>,
    pub fixed: Seq<Seq<char>>,
    pub file: Option<PathBuf>,
    pub anonymous: Seq<Seq<char>>,
    pub tokens: Option<token::ServiceView>,
}

impl View for AuthConfig {
    type V = AuthView;

    open spec fn view(&self) -> AuthView {
        AuthView {
            expected: text::strings(self.expected_authorizations@),
            fixed: text::strings(self.fixed_authorizations@),
            file: self.basic_auth_file,
            anonymous: text::strings(self.anonymous_targets@),
            tokens: match self.tokens {
                Some(tokens) => Some(tokens@),
                None => None,
            },
        }
    }
}

/// The `Authorization` headers of the credentials file, where one is configured; `contents` is
/// what it holds, or why it cannot be read.
pub open spec fn loaded(configured: bool, contents: Result<Seq<char>, Seq<char>>) -> Result<
    Seq<Seq<char>>,
    AuthErrorView,
> {
    if !configured {
        Ok(Seq::empty())
    } else {
        match contents {
            Err(cause) => Err(AuthErrorView::FileRead { cause }),
            Ok(contents) => match file_authorizations(contents) {
                Ok(authorizations) => Ok(authorizations),
                Err((line, error)) => Err(AuthErrorView::FileCredential { line, error }),
            },
        }
    }
}

/// The `Authorization` headers that are accepted: the fixed ones, and those of the file.
pub open spec fn accepted(
    fixed: Seq<Seq<char>>,
    configured: bool,
    contents: Result<Seq<char>, Seq<char>>,
) -> Result<Seq<Seq<char>>, AuthErrorView> {
    match loaded(configured, contents) {
        Err(e) => Err(e),
        Ok(file) => if (fixed + file).len() == 0 {
            Err(AuthErrorView::NoCredentials)
        } else {
            Ok(fixed + file)
        },
    }
}

/// The addresses of targets.
pub open spec fn addrs_of(targets: Seq<Seq<char>>) -> Seq<Seq<char>> {
    targets.map_values(|t: Seq<char>| target::target_of_addr(t)->Ok_0.addr())
}

/// The configured credentials: those of the options, and those of the file.
pub open spec fn configured_credentials(
    basic_auth: Seq<Seq<char>>,
    configured: bool,
    contents: Result<Seq<char>, Seq<char>>,
) -> Seq<Seq<char>> {
    if configured && contents is Ok {
        basic_auth + file_credentials(text::lines_of(contents->Ok_0))
    } else {
        basic_auth
    }
}

/// The authentication configuration that options ask for; `contents` is what the configured
/// credentials file holds, or why it cannot be read.
pub open spec fn configured_auth(
    basic_auth: Seq<Seq<char>>,
    file: Option<PathBuf>,
    anonymous_target: Seq<Seq<char>>,
    contents: Result<Seq<char>, Seq<char>>,
) -> Result<Option<AuthView>, AuthErrorView> {
    if basic_auth.len() == 0 && file is None {
        Ok(None)
    } else if let Some(error) = credentials_fault(basic_auth) {
        Err(AuthErrorView::Credential { error })
    } else {
        match accepted(authorizations_of(basic_auth), file is Some, contents) {
            Err(e) => Err(e),
            Ok(expected) => match args::bad_target(anonymous_target) {
                Some((target, error)) => Err(AuthErrorView::AnonymousTarget { target, error }),
                None => Ok(
                    Some(
                        AuthView {
                            expected,
                            fixed: authorizations_of(basic_auth),
                            file,
                            anonymous: addrs_of(anonymous_target),
                            tokens: None,
                        },
                    ),
                ),
            },
        }
    }
}

/// The contents of an optional text.
pub open spec fn str_view(s: Option<&str>) -> Option<Seq<char>> {
    match s {
        Some(s) => Some(s@),
        None => None,
    }
}

/// What a file holds, or why it cannot be read.
pub open spec fn read_view(contents: Result<&str, &str>) -> Result<Seq<char>, Seq<char>> {
    match contents {
        Ok(contents) => Ok(contents@),
        Err(cause) => Err(cause@),
    }
}

/// A configuration, by its contents.
pub open spec fn auth_view(r: Result<Option<AuthConfig>, AuthError>) -> Result<
    Option<AuthView>,
    AuthErrorView,
> {
    match r {
        Ok(Some(auth)) => Ok(Some(auth@)),
        Ok(None) => Ok(None),
        Err(e) => Err(e@),
    }
}

/// Copies of strings.
fn copy_strings(list: &[String]) -> (r: Vec<String>)
    ensures
        text::strings(r@) == text::strings(list@),
{
    let mut out: Vec<String> = Vec::new();
    let mut i: usize = 0;
    while i < list.len()
        invariant
            i <= list@.len(),
            out@.len() == i,
            forall|j: int| 0 <= j < i ==> (#[trigger] out@[j])@ == list@[j]@,
        decreases list.len() - i,
    {
        out.push(list[i].clone());
        i += 1;
    }
    assert(text::strings(out@) =~= text::strings(list@));
    out
}

/// Whether two lists of strings are the same.
fn same_strings(a: &[String], b: &[String]) -> (r: bool)
    ensures
        r == (text::strings(a@) == text::strings(b@)),
{
    let ghost x = text::strings(a@);
    let ghost y = text::strings(b@);
    assert(x.len() == a@.len() && y.len() == b@.len());
    if a.len() != b.len() {
        return false;
    }
    let mut i: usize = 0;
    while i < a.len()
        invariant
            i <= a@.len(),
            a@.len() == b@.len(),
            x == text::strings(a@),
            y == text::strings(b@),
            forall|j: int| 0 <= j < i ==> x[j] == y[j],
        decreases a.len() - i,
    {
        assert(x[i as int] == a@[i as int]@ && y[i as int] == b@[i as int]@);
        if !text::str_eq(a[i].as_str(), b[i].as_str()) {
            return false;
        }
        i += 1;
    }
    assert(x =~= y);
    true
}

/// The `Authorization` headers that are accepted: the fixed ones, and those of the file, where
/// one is configured.
fn accept(fixed: &[String], configured: bool, contents: Result<&str, &str>) -> (r: Result<
    Vec<String>,
    AuthError,
>)
    requires
        contents matches Ok(c) ==> codec::text_fits(c@),
    ensures
        match r {
            Ok(v) => accepted(text::strings(fixed@), configured, read_view(contents)) == Ok::<
                Seq<Seq<char>>,
                AuthErrorView,
            >(text::strings(v@)) && (name_users(text::strings(fixed@)) ==> name_users(
                text::strings(v@),
            )) && (forall|credentials: Seq<Seq<char>>| #[trigger]
                present_users(text::strings(fixed@), credentials) ==> present_users(
                    text::strings(v@),
                    configured_credentials(credentials, configured, read_view(contents)),
                )),
            Err(e) => accepted(text::strings(fixed@), configured, read_view(contents)) == Err::<
                Seq<Seq<char>>,
                AuthErrorView,
            >(e@),
        },
{
    let mut file: Vec<String> = Vec::new();
    assert(text::strings(file@) =~= Seq::empty());
    if configured {
        match contents {
            Err(cause) => return Err(AuthError::FileRead { cause: cause.to_owned() }),
            Ok(contents) => match load_auth_file(contents) {
                Ok(v) => {
                    file = v;
                },
                Err((line, error)) => return Err(AuthError::FileCredential { line, error }),
            },
        }
    }
    let mut all = copy_strings(fixed);
    let ghost first = text::strings(all@);
    let ghost second = text::strings(file@);
    all.append(&mut file);
    proof {
        assert(text::strings(all@) =~= first + second);
        assert(text::strings(all@).len() == all@.len());
        if name_users(first) && name_users(second) {
            assert forall|i: int| 0 <= i < (first + second).len() implies basic_username(
                #[trigger] (first + second)[i],
            ) is Some by {
                if i < first.len() {
                    assert((first + second)[i] == first[i]);
                } else {
                    assert((first + second)[i] == second[i - first.len()]);
                }
            }
        }
        assert forall|credentials: Seq<Seq<char>>| #[trigger]
            present_users(first, credentials) implies present_users(
            first + second,
            configured_credentials(credentials, configured, read_view(contents)),
        ) by {
            if configured {
                lemma_present_users(
                    first,
                    credentials,
                    second,
                    file_credentials(text::lines_of(read_view(contents)->Ok_0)),
                );
            } else {
                assert(first + second =~= first);
            }
        }
    }
    if all.len() == 0 {
        return Err(AuthError::NoCredentials);
    }
    Ok(all)
}

/// The addresses of targets.
fn target_addrs(targets: &[String]) -> (r: Result<Vec<String>, AuthError>)
    ensures
        match r {
            Ok(v) => args::bad_target(text::strings(targets@)) is None && text::strings(v@)
                == addrs_of(text::strings(targets@)),
            Err(e) => match args::bad_target(text::strings(targets@)) {
                Some((target, error)) => e@ == (AuthErrorView::AnonymousTarget { target, error }),
                None => false,
            },
        },
{
    let ghost all = text::strings(targets@);
    let mut out: Vec<String> = Vec::new();
    let mut i: usize = 0;
    assert(all.skip(0) =~= all);
    while i < targets.len()
        invariant
            i <= targets@.len(),
            all == text::strings(targets@),
            args::bad_target(all) == args::bad_target(all.skip(i as int)),
            out@.len() == i,
            forall|j: int|
                0 <= j < i ==> (#[trigger] out@[j])@ == target::target_of_addr(all[j])->Ok_0.addr(),
        decreases targets.len() - i,
    {
        proof {
            assert(all.skip(i as int)[0] == targets@[i as int]@);
            assert(all.skip(i as int).skip(1) =~= all.skip(i + 1));
        }
        match target::parse_target_addr(targets[i].as_str()) {
            Ok(target) => out.push(target.addr()),
            Err(error) => {
                return Err(AuthError::AnonymousTarget { target: targets[i].clone(), error });
            },
        }
        i += 1;
    }
    assert(text::strings(out@) =~= addrs_of(all));
    Ok(out)
}

/// The authentication configuration that the options ask for, if they do; `contents` is what the
/// configured credentials file holds, or why it cannot be read.
pub fn build_auth_config(args: &Args, contents: Result<&str, &str>) -> (r: Result<
    Option<AuthConfig>,
    AuthError,
>)
    requires
        forall|i: int|
            0 <= i < args.basic_auth@.len() ==> codec::text_fits((#[trigger] args.basic_auth@[i])@),
        contents matches Ok(c) ==> codec::text_fits(c@),
    ensures
        auth_view(r) == configured_auth(
            text::strings(args.basic_auth@),
            args.basic_auth_file,
            text::strings(args.anonymous_target@),
            read_view(contents),
        ),
        r matches Ok(Some(auth)) ==> {
            &&& auth.wf()
            &&& name_users(auth@.expected)
            &&& name_users(auth@.fixed)
            &&& present_users(
                auth@.expected,
                configured_credentials(
                    text::strings(args.basic_auth@),
                    args.basic_auth_file is Some,
                    read_view(contents),
                ),
            )
            &&& present_users(auth@.fixed, text::strings(args.basic_auth@))
        },
{
    assert(text::strings(args.basic_auth@).len() == args.basic_auth@.len());
    if args.basic_auth.len() == 0 && args.basic_auth_file.is_none() {
        return Ok(None);
    }
    let fixed_authorizations = match encode_credentials(&args.basic_auth) {
        Ok(v) => v,
        Err(error) => return Err(AuthError::Credential { error }),
    };
    let expected_authorizations = match accept(
        &fixed_authorizations,
        args.basic_auth_file.is_some(),
        contents,
    ) {
        Ok(v) => v,
        Err(e) => return Err(e),
    };
    let anonymous_targets = match target_addrs(&args.anonymous_target) {
        Ok(v) => v,
        Err(e) => return Err(e),
    };
    let basic_auth_file = match &args.basic_auth_file {
        Some(path) => Some(path.clone()),
        None => None,
    };
    Ok(
        Some(
            AuthConfig {
                expected_authorizations,
                fixed_authorizations,
                basic_auth_file,
                anonymous_targets,
                tokens: None,
            },
        ),
    )
}

impl AuthView {
    /// The configuration with other accepted headers.
    pub open spec fn with_expected(self, expected: Seq<Seq<char>>) -> AuthView {
        AuthView { expected, ..self }
    }

    /// The target of a path needs no authentication.
    pub open spec fn is_anonymous(self, path: Seq<char>) -> bool {
        target::target_of_path(path) matches Ok(target) && self.anonymous.contains(target.addr())
    }

    /// The user that Basic credentials present, where they are accepted.
    pub open spec fn basic_user(self, authorization: Seq<char>) -> Option<Seq<char>> {
        if self.expected.contains(authorization) {
            basic_username(authorization)
        } else {
            None
        }
    }

    /// There are credentials of the user.
    pub open spec fn has_user(self, user: Seq<char>) -> bool {
        exists|i: int|
            0 <= i < self.expected.len() && basic_username(#[trigger] self.expected[i]) == Some(
                user,
            )
    }
}

impl AuthConfig {
    /// The token service is well formed.
    pub open spec fn wf(self) -> bool {
        self.tokens matches Some(tokens) ==> tokens.wf()
    }

    /// Loads the credentials file again; `contents` is what it holds, or why it cannot be read.
    /// Returns whether the accepted headers have changed. They stay as they are where
    /// the file is not usable.
    pub fn reload_auth_file(&mut self, contents: Result<&str, &str>) -> (r: Result<bool, AuthError>)
        requires
            old(self).wf(),
            contents matches Ok(c) ==> codec::text_fits(c@),
        ensures
            final(self).wf(),
            match accepted(old(self)@.fixed, true, read_view(contents)) {
                Ok(next) => final(self)@ == old(self)@.with_expected(next) && r == Ok::<
                    bool,
                    AuthError,
                >(old(self)@.expected != next),
                Err(e) => final(self)@ == old(self)@ && r is Err && r->Err_0@ == e,
            },
            name_users(old(self)@.fixed) && name_users(old(self)@.expected) ==> name_users(
                final(self)@.expected,
            ),
            r is Ok ==> forall|credentials: Seq<Seq<char>>| #[trigger]
                present_users(old(self)@.fixed, credentials) ==> present_users(
                    final(self)@.expected,
                    configured_credentials(credentials, true, read_view(contents)),
                ),
    {
        let next = match accept(&self.fixed_authorizations, true, contents) {
            Ok(next) => next,
            Err(e) => return Err(e),
        };
        if same_strings(&self.expected_authorizations, &next) {
            return Ok(false);
        }
        self.expected_authorizations = next;
        Ok(true)
    }

    /// Whether the target of a path needs no authentication.
    pub fn allows_anonymous_target(&self, path: &str) -> (r: bool)
        ensures
            r == self@.is_anonymous(path@),
    {
        match target::parse_target(path) {
            Ok(target) => list_contains(&self.anonymous_targets, target.addr().as_str()),
            Err(_) => false,
        }
    }

    /// Whether an `Authorization` header is accepted.
    pub fn expects(&self, authorization: &str) -> (r: bool)
        ensures
            r == self@.expected.contains(authorization@),
    {
        list_contains(&self.expected_authorizations, authorization)
    }

    /// The user that Basic credentials present, where they are accepted.
    pub fn basic_user(&self, authorization: &str) -> (r: Option<String>)
        ensures
            text::optional(r) == self@.basic_user(authorization@),
            codec::within_limits(authorization@.len()) ==> (r matches Some(user)
                ==> token::user_fits(user@)),
    {
        if self.expects(authorization) {
            basic_auth_username(authorization)
        } else {
            None
        }
    }

    /// Whether there are credentials of the user.
    pub fn has_user(&self, user: &str) -> (r: bool)
        ensures
            r == self@.has_user(user@),
    {
        let ghost all = self@.expected;
        let mut i: usize = 0;
        while i < self.expected_authorizations.len()
            invariant
                i <= self.expected_authorizations@.len(),
                all == text::strings(self.expected_authorizations@),
                forall|j: int|
                    0 <= j < i ==> basic_username(#[trigger] all[j]) != Some(user@),
            decreases self.expected_authorizations.len() - i,
        {
            assert(all[i as int] == self.expected_authorizations@[i as int]@);
            match basic_auth_username(self.expected_authorizations[i].as_str()) {
                Some(name) => if text::str_eq(name.as_str(), user) {
                    assert(basic_username(all[i as int]) == Some(user@));
                    return true;
                },
                None => {},
            }
            i += 1;
        }
        false
    }
}

/// Whether a text is in a list.
fn list_contains(list: &[String], s: &str) -> (r: bool)
    ensures
        r == text::strings(list@).contains(s@),
{
    let ghost all = text::strings(list@);
    let mut i: usize = 0;
    while i < list.len()
        invariant
            i <= list@.len(),
            all == text::strings(list@),
            forall|j: int| 0 <= j < i ==> (#[trigger] all[j]) != s@,
        decreases list.len() - i,
    {
        assert(all[i as int] == list@[i as int]@);
        if text::str_eq(list[i].as_str(), s) {
            return true;
        }
        i += 1;
    }
    assert(all.len() == list@.len());
    false
}

// ---------------------------------------------------------------------------------------------
// Reloading
// ---------------------------------------------------------------------------------------------

/// How often the credentials file is loaded again.
pub const RELOAD_INTERVAL_SECS: u64 = 1;

/// What is to be reported of an attempt to load the credentials file again.
#[derive(Debug, PartialEq, Eq)]
pub enum ReloadReport {
    /// There are new credentials.
    Reloaded,
    /// Nothing new.
    Quiet,
    /// The file cannot be used; the credentials stay as they are.
    Failed { error: String },
}

/// What is reported of reloading the credentials file: a failure once, as long as it stays the
/// same.
#[derive(Debug)]
pub struct ReloadLog {
    pub last_error: Option<String>,
}

impl ReloadLog {
    /// Nothing was reported yet.
    pub fn new() -> (r: ReloadLog)
        ensures
            r.last_error is None,
    {
        ReloadLog { last_error: None }
    }

    /// What is to be reported of an attempt; `path` is where the credentials file is.
    pub fn report(&mut self, outcome: &Result<bool, AuthError>, path: &str) -> (r: ReloadReport)
        ensures
            match *outcome {
                Ok(changed) => final(self).last_error is None && r == (if changed {
                    ReloadReport::Reloaded
                } else {
                    ReloadReport::Quiet
                }),
                Err(e) => text::optional(final(self).last_error) == Some(e@.text(path@)) && (
                if text::optional(old(self).last_error) == Some(e@.text(path@)) {
                    r == ReloadReport::Quiet
                } else {
                    r matches ReloadReport::Failed { error } && error@ == e@.text(path@)
                }),
            },
    {
        match outcome {
            Ok(changed) => {
                self.last_error = None;
                if *changed {
                    ReloadReport::Reloaded
                } else {
                    ReloadReport::Quiet
                }
            },
            Err(e) => {
                let error = e.text(path);
                let known = match &self.last_error {
                    Some(last) => text::str_eq(last.as_str(), error.as_str()),
                    None => false,
                };
                if known {
                    return ReloadReport::Quiet;
                }
                self.last_error = Some(error.clone());
                ReloadReport::Failed { error }
            },
        }
    }
}

// ---------------------------------------------------------------------------------------------
// Requests
// ---------------------------------------------------------------------------------------------

/// The refusal, with the challenges that the client may answer.
pub open spec fn unauthorized(basic: bool, bearer: Option<Seq<char>>) -> http::ResponseView {
    let refusal = http::ResponseView {
        status: 401,
        headers: Seq::empty(),
        body: Some("authentication required"@),
    };
    let refusal = if basic {
        refusal.with("www-authenticate"@, BASIC_CHALLENGE@)
    } else {
        refusal
    };
    match bearer {
        Some(challenge) => refusal.with("www-authenticate"@, challenge),
        None => refusal,
    }
}

/// The refusal, with the challenges that the client may answer.
pub fn unauthorized_response(basic: bool, bearer: Option<&str>) -> (r: Response)
    ensures
        r@ == unauthorized(basic, str_view(bearer)),
{
    let refusal = Response::new(401, "authentication required");
    let refusal = if basic {
        refusal.with("www-authenticate", BASIC_CHALLENGE)
    } else {
        refusal
    };
    match bearer {
        Some(challenge) => refusal.with("www-authenticate", challenge),
        None => refusal,
    }
}

/// The user that a request is reported under: the one it presents, whether or not accepted.
pub open spec fn claimed_user(authorization: Option<Seq<char>>) -> Seq<char> {
    match authorization {
        None => ANONYMOUS_AUTH_USER@,
        Some(authorization) => match basic_username(authorization) {
            Some(user) => user,
            None => INVALID_AUTH_USER@,
        },
    }
}

/// The user that a request is reported under.
pub fn claimed_auth_user(request: &Request) -> (r: String)
    ensures
        r@ == claimed_user(request@.text("authorization"@)),
{
    match request.text("authorization") {
        None => ANONYMOUS_AUTH_USER.to_owned(),
        Some(authorization) => match basic_auth_username(authorization.as_str()) {
            Some(user) => user,
            None => INVALID_AUTH_USER.to_owned(),
        },
    }
}

impl AuthView {
    /// The user of an access token, where tokens are accepted, the token is valid when the wall
    /// clock shows `wall`, and the user still exists.
    pub open spec fn bearer_user(self, authorization: Option<Seq<char>>, wall: u64) -> Option<
        Seq<char>,
    > {
        match (self.tokens, authorization) {
            (Some(tokens), Some(authorization)) => match bearer_in(authorization) {
                Some(token) => match tokens.verify_access(token, wall) {
                    Some(user) => if self.has_user(user) {
                        Some(user)
                    } else {
                        None
                    },
                    None => None,
                },
                None => None,
            },
            _ => None,
        }
    }

    /// The challenge for tokens, where they are accepted; it says so where one was presented.
    pub open spec fn bearer_challenge(self, authorization: Option<Seq<char>>) -> Option<Seq<char>> {
        match self.tokens {
            None => None,
            Some(_) => match authorization {
                Some(authorization) => if bearer_in(authorization) is Some {
                    Some(BEARER_INVALID_CHALLENGE@)
                } else {
                    Some(BEARER_CHALLENGE@)
                },
                None => Some(BEARER_CHALLENGE@),
            },
        }
    }

    /// Who a request comes from, when the wall clock shows `wall`; else the refusal.
    pub open spec fn authorize(self, request: http::RequestView, wall: u64) -> Result<
        Seq<char>,
        http::ResponseView,
    > {
        let authorization = request.text("authorization"@);
        if self.is_anonymous(request.path) {
            Ok(ANONYMOUS_AUTH_USER@)
        } else if authorization is Some && self.expected.contains(authorization->0) {
            Ok(claimed_user(authorization))
        } else {
            match self.bearer_user(authorization, wall) {
                Some(user) => Ok(user),
                None => Err(unauthorized(true, self.bearer_challenge(authorization))),
            }
        }
    }
}

/// Who a request comes from, when the wall clock shows `wall`; else the refusal. Without an
/// authentication configuration everyone may use the router.
pub open spec fn authorized(
    request: http::RequestView,
    auth: Option<AuthView>,
    wall: u64,
) -> Result<Seq<char>, http::ResponseView> {
    match auth {
        None => Ok(ANONYMOUS_AUTH_USER@),
        Some(auth) => auth.authorize(request, wall),
    }
}

/// An optional configuration, by its contents.
pub open spec fn optional_auth(auth: Option<&AuthConfig>) -> Option<AuthView> {
    match auth {
        Some(auth) => Some(auth@),
        None => None,
    }
}

/// The outcome of an authorization, by its contents.
pub open spec fn outcome(r: Result<String, Response>) -> Result<Seq<char>, http::ResponseView> {
    match r {
        Ok(user) => Ok(user@),
        Err(response) => Err(response@),
    }
}

impl AuthConfig {
    /// The user of an access token, where tokens are accepted, the token is valid when the wall
    /// clock shows `wall`, and the user still exists.
    fn bearer_user(&self, authorization: Option<&str>, wall: u64) -> (r: Option<String>)
        requires
            self.wf(),
            authorization matches Some(a) ==> codec::within_limits(encode_utf8(a@).len()),
        ensures
            text::optional(r) == self@.bearer_user(str_view(authorization), wall),
    {
        match (&self.tokens, authorization) {
            (Some(tokens), Some(authorization)) => match bearer_token(authorization) {
                Some(token) => {
                    proof {
                        lemma_suffix_fits(authorization@, "Bearer "@.len() as int);
                    }
                    match tokens.verify_access_at(token.as_str(), wall) {
                        Some(user) => if self.has_user(user.as_str()) {
                            Some(user)
                        } else {
                            None
                        },
                        None => None,
                    }
                },
                None => None,
            },
            _ => None,
        }
    }
}

/// What follows in a text takes no more bytes than the text.
pub proof fn lemma_suffix_fits(chars: Seq<char>, n: int)
    requires
        0 <= n <= chars.len(),
    ensures
        encode_utf8(chars.skip(n)).len() <= encode_utf8(chars).len(),
    decreases n,
{
    if n > 0 {
        lemma_suffix_fits(chars.drop_first(), n - 1);
        assert(chars.skip(n) =~= chars.drop_first().skip(n - 1));
    } else {
        assert(chars.skip(0) =~= chars);
    }
}

/// Who a request comes from, when the wall clock shows `wall`; else the refusal.
pub fn authorize_request_at(request: &Request, auth: Option<&AuthConfig>, wall: u64) -> (r: Result<
    String,
    Response,
>)
    requires
        request@.fits(),
        auth matches Some(auth) ==> auth.wf(),
    ensures
        outcome(r) == authorized(request@, optional_auth(auth), wall),
{
    let auth = match auth {
        Some(auth) => auth,
        None => return Ok(ANONYMOUS_AUTH_USER.to_owned()),
    };
    if auth.allows_anonymous_target(request.path.as_str()) {
        return Ok(ANONYMOUS_AUTH_USER.to_owned());
    }
    proof {
        http::lemma_text_fits(request@, "authorization"@);
    }
    let authorization = request.text("authorization");
    match &authorization {
        Some(authorization) => if auth.expects(authorization.as_str()) {
            return Ok(claimed_auth_user(request));
        },
        None => {},
    }
    let presented = match &authorization {
        Some(authorization) => Some(authorization.as_str()),
        None => None,
    };
    match auth.bearer_user(presented, wall) {
        Some(user) => Ok(user),
        None => {
            let bearer = match presented {
                Some(authorization) => bearer_token(authorization).is_some(),
                None => false,
            };
            let challenge = if auth.tokens.is_none() {
                None
            } else if bearer {
                Some(BEARER_INVALID_CHALLENGE)
            } else {
                Some(BEARER_CHALLENGE)
            };
            Err(unauthorized_response(true, challenge))
        },
    }
}

/// Who a request comes from; else the refusal.
pub fn authorize_request(request: &Request, auth: Option<&AuthConfig>) -> (r: Result<
    String,
    Response,
>)
    requires
        request@.fits(),
        auth matches Some(auth) ==> auth.wf(),
    ensures
        exists|wall: u64|
            outcome(r) == #[trigger] authorized(request@, optional_auth(auth), wall)
                && clock::is_wall(wall),
{
    let wall: u64 = clock::unix_now();
    authorize_request_at(request, auth, wall)
}

// ---------------------------------------------------------------------------------------------
// Laws
// ---------------------------------------------------------------------------------------------

/// Authentication is disabled unless it is configured: then every request passes.
pub proof fn law_requests_pass_when_authentication_is_disabled(
    request: http::RequestView,
    wall: u64,
)
    ensures
        authorized(request, None, wall) == Ok::<Seq<char>, http::ResponseView>(
            ANONYMOUS_AUTH_USER@,
        ),
{
}

/// Authentication is disabled exactly where neither credentials nor a credentials file are
/// configured.
pub proof fn law_authentication_is_enabled_by_either_option(
    basic_auth: Seq<Seq<char>>,
    file: Option<PathBuf>,
    anonymous_target: Seq<Seq<char>>,
    contents: Result<Seq<char>, Seq<char>>,
)
    ensures
        configured_auth(basic_auth, file, anonymous_target, contents) == Ok::<
            Option<AuthView>,
            AuthErrorView,
        >(None) <==> basic_auth.len() == 0 && file is None,
{
}

/// A configured credential opens the router, under its user name.
pub proof fn law_a_configured_credential_is_accepted(
    auth: AuthView,
    credentials: Seq<Seq<char>>,
    credential: Seq<char>,
    request: http::RequestView,
    wall: u64,
)
    requires
        present_users(auth.expected, credentials),
        credentials.contains(credential),
        request.text("authorization"@) == Some(authorization_of(credential)),
        !auth.is_anonymous(request.path),
    ensures
        auth.authorize(request, wall) == Ok::<Seq<char>, http::ResponseView>(
            credential_user(credential),
        ),
        auth.has_user(credential_user(credential)),
{
    let i = choose|i: int| 0 <= i < credentials.len() && credentials[i] == credential;
    assert(decodes(credentials[i]));
    assert(auth.expected[i] == authorization_of(credential));
    assert(basic_username(auth.expected[i]) == Some(credential_user(credential)));
}

/// A Basic credential that is not configured is refused, also where only its password differs
/// from a configured one.
///
/// That the base64 text of a credential stands for it is what `encode_credentials` promises of
/// each that it encodes.
pub proof fn law_an_unconfigured_credential_is_refused(
    auth: AuthView,
    credentials: Seq<Seq<char>>,
    credential: Seq<char>,
    request: http::RequestView,
    wall: u64,
)
    requires
        present_users(auth.expected, credentials),
        !credentials.contains(credential),
        decodes(credential),
        request.text("authorization"@) == Some(authorization_of(credential)),
        !auth.is_anonymous(request.path),
    ensures
        auth.authorize(request, wall) == Err::<Seq<char>, http::ResponseView>(
            unauthorized(
                true,
                match auth.tokens {
                    Some(_) => Some(BEARER_CHALLENGE@),
                    None => None,
                },
            ),
        ),
{
    broadcast use encode_utf8_decode_utf8;

    let presented = authorization_of(credential);
    let encoded = codec::base64_text(encode_utf8(credential));
    assert(presented.skip("Basic "@.len() as int) =~= encoded);
    if auth.expected.contains(presented) {
        let i = choose|i: int| 0 <= i < auth.expected.len() && auth.expected[i] == presented;
        let other = credentials[i];
        assert(decodes(other));
        assert(authorization_of(other).skip("Basic "@.len() as int) =~= codec::base64_text(
            encode_utf8(other),
        ));
        assert(encode_utf8(other) == encode_utf8(credential));
        assert(decode_utf8(encode_utf8(other)) == other);
        assert(decode_utf8(encode_utf8(credential)) == credential);
        assert(credentials.contains(credential));
    }
    reveal_strlit("Basic ");
    reveal_strlit("Bearer ");
    if text::strip_prefix(presented, "Bearer "@) is Some {
        assert(presented[1] == 'a');
        assert(presented.take("Bearer "@.len() as int)[1] == presented[1]);
        assert("Bearer "@[1] == 'e');
    }
}

/// Every configured credential is expected, and so is every credential of the file.
pub proof fn law_all_configured_credentials_are_expected(
    basic_auth: Seq<Seq<char>>,
    file: Option<PathBuf>,
    anonymous_target: Seq<Seq<char>>,
    contents: Result<Seq<char>, Seq<char>>,
    credential: Seq<char>,
)
    requires
        configured_auth(basic_auth, file, anonymous_target, contents) matches Ok(Some(_)),
        configured_credentials(basic_auth, file is Some, contents).contains(credential),
    ensures
        configured_auth(
            basic_auth,
            file,
            anonymous_target,
            contents,
        )->Ok_0->Some_0.expected.contains(authorization_of(credential)),
{
    let expected = configured_auth(
        basic_auth,
        file,
        anonymous_target,
        contents,
    )->Ok_0->Some_0.expected;
    let all = configured_credentials(basic_auth, file is Some, contents);
    assert(expected =~= authorizations_of(all));
    let i = choose|i: int| 0 <= i < all.len() && all[i] == credential;
    assert(expected[i] == authorization_of(credential));
}

/// Without accepted credentials and without a valid access token a request is refused, unless its
/// target is open to everyone.
pub proof fn law_other_requests_are_refused(
    auth: AuthView,
    request: http::RequestView,
    wall: u64,
)
    requires
        !auth.is_anonymous(request.path),
        request.text("authorization"@) matches Some(a) ==> !auth.expected.contains(a),
        auth.bearer_user(request.text("authorization"@), wall) is None,
    ensures
        auth.authorize(request, wall) == Err::<Seq<char>, http::ResponseView>(
            unauthorized(true, auth.bearer_challenge(request.text("authorization"@))),
        ),
{
}

/// Targets that are open to everyone need no credentials: whatever a request presents, it passes
/// as anonymous. They are compared after normalization.
pub proof fn law_anonymous_targets_need_no_credentials(
    auth: AuthView,
    request: http::RequestView,
    wall: u64,
    open: Seq<char>,
)
    requires
        target::target_of_addr(open) is Ok,
        auth.anonymous.contains(target::target_of_addr(open)->Ok_0.addr()),
        target::target_of_path(request.path) == target::target_of_addr(open),
    ensures
        auth.authorize(request, wall) == Ok::<Seq<char>, http::ResponseView>(ANONYMOUS_AUTH_USER@),
{
}

/// An access token is only as good as the credentials of its user: without them it is refused.
pub proof fn law_access_tokens_need_an_existing_user(
    auth: AuthView,
    authorization: Option<Seq<char>>,
    wall: u64,
)
    ensures
        auth.bearer_user(authorization, wall) matches Some(user) ==> auth.has_user(user),
        auth.tokens is None ==> auth.bearer_user(authorization, wall) is None,
{
}

/// The fixed credentials stay accepted whatever the file holds.
pub proof fn law_reloading_keeps_the_fixed_credentials(
    fixed: Seq<Seq<char>>,
    contents: Result<Seq<char>, Seq<char>>,
    authorization: Seq<char>,
)
    requires
        fixed.contains(authorization),
        accepted(fixed, true, contents) is Ok,
    ensures
        accepted(fixed, true, contents)->Ok_0.contains(authorization),
{
    let i = choose|i: int| 0 <= i < fixed.len() && fixed[i] == authorization;
    assert(accepted(fixed, true, contents)->Ok_0[i] == authorization);
}

/// Blank lines and comments are ignored, wherever they stand in a credentials file.
pub proof fn law_blank_lines_and_comments_are_ignored(
    before: Seq<Seq<char>>,
    line: Seq<char>,
    after: Seq<Seq<char>>,
)
    requires
        !is_credential_line(line),
    ensures
        file_credentials(before + seq![line] + after) == file_credentials(before + after),
    decreases after.len(),
{
    let with = before + seq![line] + after;
    let without = before + after;
    if after.len() == 0 {
        assert(with.drop_last() =~= before);
        assert(with.last() == line);
        assert(without =~= before);
    } else {
        law_blank_lines_and_comments_are_ignored(before, line, after.drop_last());
        assert(with.drop_last() =~= before + seq![line] + after.drop_last());
        assert(without.drop_last() =~= before + after.drop_last());
        assert(with.last() == after.last());
        assert(without.last() == after.last());
    }
}

} // verus!
