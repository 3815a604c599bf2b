//! Access and refresh tokens.
//!
//! A client logs in once with Basic Auth and gets two tokens:
//!
//! - an **access token**, short-lived and stateless: `base64url(payload).base64url(hmac)`, where
//!   the payload carries the user, the token family and the expiry. It is what proxy requests
//!   present (`Authorization: Bearer ...`), so the password is not sent on every connection.
//! - a **refresh token**, long-lived, opaque and stateful: only its SHA-256 is stored. It is used
//!   at `/auth/refresh` to get a new pair. Every refresh **rotates** the token; presenting one
//!   that was already rotated means it leaked, and the whole family is revoked.
//!
//! All tokens of one login form a *family*, so logging out or detecting reuse kills the refresh
//! token and (until they expire) the access tokens of that login. State lives in memory: after a
//! restart refresh tokens are gone and clients log in again with Basic Auth. Access tokens
//! survive a restart only when the signing secret is configured.
//!
//! Each operation that reads a clock or draws random bytes stands beside one that takes what was
//! read and drawn as arguments (`login` and `login_at`), and whose contract is exact.
use crate::bigendian;
use crate::clock;
use crate::clock::Span;
use crate::codec;
use crate::crypto;
use crate::table;
use crate::table::{Condition, Table, TableKey};
use crate::text;
use std::time::Instant;
use vstd::prelude::*;
use vstd::utf8::*;

verus! {

/// The header that carries an opaque token.
pub const TOKEN_HEADER: &'static str = "x-ws2tcp-token";

pub const TOKEN_BYTES: usize = 32;

pub const MIN_SECRET_BYTES: usize = 32;

pub const ACCESS_TOKEN_VERSION: u8 = 1;

/// Longest a login can be kept alive by refreshing, however often the client refreshes.
pub const MAX_FAMILY_LIFETIME_SECS: u64 = 2_592_000;

/// Bound on remembered refresh tokens (live and already rotated), so that a client with valid
/// credentials cannot grow the store without limit.
pub const MAX_RECORDS: usize = 100_000;

pub const SWEEP_INTERVAL_SECS: u64 = 60;

/// The longest that a login can be kept alive.
pub open spec fn max_family_lifetime() -> Span {
    Span { nanos: 2_592_000_000_000_000 }
}

/// The time between two sweeps.
pub open spec fn sweep_interval() -> Span {
    Span { nanos: 60_000_000_000 }
}

/// A freshly issued access and refresh token pair.
#[derive(Debug, Clone, PartialEq, Eq)]
pub struct IssuedTokens {
    pub access_token: String,
    pub access_expires_in: u64,
    pub refresh_token: String,
    pub refresh_expires_in: u64,
}

/// What a pair of tokens holds.
pub struct IssuedView {
    pub access_token: Seq<char>,
    pub access_expires_in: nat,
    pub refresh_token: Seq<char>,
    pub refresh_expires_in: nat,
}

impl View for IssuedTokens {
    type V = IssuedView;

    open spec fn view(&self) -> IssuedView {
        IssuedView {
            access_token: self.access_token@,
            access_expires_in: self.access_expires_in as nat,
            refresh_token: self.refresh_token@,
            refresh_expires_in: self.refresh_expires_in as nat,
        }
    }
}

/// Why a refresh (or a login) was refused.
#[derive(Debug, PartialEq, Eq)]
pub enum TokenError {
    /// Unknown, expired or revoked token, or its user no longer exists.
    Invalid,
    /// A refresh token that was already rotated was presented again; its family is now revoked.
    Reused { user: String },
    /// The token store is full.
    Full,
    /// The system random number generator failed.
    Random,
}

/// What a refusal says.
pub enum TokenErrorView {
    Invalid,
    Reused { user: Seq<char> },
    Full,
    Random,
}

impl View for TokenError {
    type V = TokenErrorView;

    open spec fn view(&self) -> TokenErrorView {
        match self {
            TokenError::Invalid => TokenErrorView::Invalid,
            TokenError::Reused { user } => TokenErrorView::Reused { user: user@ },
            TokenError::Full => TokenErrorView::Full,
            TokenError::Random => TokenErrorView::Random,
        }
    }
}

/// The SHA-256 of a refresh token.
#[derive(Debug)]
pub struct Hash {
    pub bytes: Vec<u8>,
}

impl TableKey for Hash {
    type Id = Seq<u8>;

    open spec fn id(&self) -> Seq<u8> {
        self.bytes@
    }

    open spec fn slot_of(id: Seq<u8>) -> nat {
        if id.len() >= 2 {
            id[0] as nat * 256 + id[1] as nat
        } else {
            0
        }
    }

    fn slot(&self) -> (r: u64) {
        if self.bytes.len() >= 2 {
            self.bytes[0] as u64 * 256 + self.bytes[1] as u64
        } else {
            0
        }
    }

    fn same(&self, other: &Self) -> (r: bool) {
        text::bytes_eq(&self.bytes, &other.bytes)
    }
}

/// A refresh token that can still be exchanged.
#[derive(Debug)]
pub struct RefreshRecord {
    pub family: u64,
    pub user: String,
    pub expires: u128,
    pub family_deadline: u128,
}

/// What a refresh token stands for.
pub struct RefreshView {
    pub family: u64,
    pub user: Seq<char>,
    pub expires: u128,
    pub family_deadline: u128,
}

impl View for RefreshRecord {
    type V = RefreshView;

    open spec fn view(&self) -> RefreshView {
        RefreshView {
            family: self.family,
            user: self.user@,
            expires: self.expires,
            family_deadline: self.family_deadline,
        }
    }
}

/// A refresh token that was rotated out. Kept until it would have expired, to spot its reuse.
#[derive(Debug)]
pub struct SpentRecord {
    pub family: u64,
    pub user: String,
    pub expires: u128,
}

/// What a rotated refresh token stood for.
pub struct SpentView {
    pub family: u64,
    pub user: Seq<char>,
    pub expires: u128,
}

impl View for SpentRecord {
    type V = SpentView;

    open spec fn view(&self) -> SpentView {
        SpentView { family: self.family, user: self.user@, expires: self.expires }
    }
}

/// What the service remembers.
#[derive(Debug)]
pub struct State {
    pub refresh: Table<Hash, RefreshRecord>,
    pub spent: Table<Hash, SpentRecord>,
    /// Revoked family -> when its last access token expires, after which it can be forgotten.
    pub revoked: Table<u64, u128>,
    pub next_sweep: u128,
}

/// What the service remembers, by the hashes of the refresh tokens and by family.
#[verifier::ext_equal]
pub struct StateView {
    pub refresh: Map<Seq<u8>, RefreshView>,
    pub spent: Map<Seq<u8>, SpentView>,
    pub revoked: Map<u64, u128>,
    pub next_sweep: u128,
}

impl View for State {
    type V = StateView;

    open spec fn view(&self) -> StateView {
        StateView {
            refresh: self.refresh@,
            spent: self.spent@,
            revoked: self.revoked@,
            next_sweep: self.next_sweep,
        }
    }
}

/// A refresh token can be exchanged until it expires or its family does.
pub open spec fn live(r: RefreshView, now: u128) -> bool {
    now < r.expires && now < r.family_deadline
}

impl StateView {
    /// How many refresh tokens are remembered.
    pub open spec fn records(self) -> nat {
        self.refresh.len() + self.spent.len()
    }

    pub open spec fn is_full(self) -> bool {
        self.records() >= MAX_RECORDS
    }

    /// The state without what has expired at `now`.
    pub open spec fn force_swept(self, now: u128) -> StateView {
        StateView {
            refresh: table::kept(self.refresh, |r: RefreshView| live(r, now)),
            spent: table::kept(self.spent, |r: SpentView| now < r.expires),
            revoked: table::kept(self.revoked, |until: u128| now < until),
            next_sweep: clock::later(now, sweep_interval()),
        }
    }

    /// The state after a sweep, where one is due.
    pub open spec fn swept(self, now: u128) -> StateView {
        if now < self.next_sweep {
            self
        } else {
            self.force_swept(now)
        }
    }

    /// The state after a sweep, where it has no room.
    pub open spec fn room_made(self, now: u128) -> StateView {
        if self.is_full() {
            self.force_swept(now)
        } else {
            self
        }
    }

    /// The state without the refresh tokens of `family`, whose access tokens are refused until
    /// the last of them has expired.
    pub open spec fn family_revoked(self, family: u64, now: u128, access_ttl: Span) -> StateView {
        StateView {
            refresh: table::kept(self.refresh, |r: RefreshView| r.family != family),
            revoked: self.revoked.insert(family, clock::later(now, access_ttl)),
            ..self
        }
    }
}

/// Whether a refresh token can still be exchanged.
struct Live {
    now: u128,
}

impl Condition<RefreshRecord> for Live {
    closed spec fn holds(&self, v: RefreshView) -> bool {
        live(v, self.now)
    }

    fn check(&self, v: &RefreshRecord) -> (r: bool) {
        self.now < v.expires && self.now < v.family_deadline
    }
}

/// Whether the reuse of a rotated token is still to be spotted.
struct Remembered {
    now: u128,
}

impl Condition<SpentRecord> for Remembered {
    closed spec fn holds(&self, v: SpentView) -> bool {
        self.now < v.expires
    }

    fn check(&self, v: &SpentRecord) -> (r: bool) {
        self.now < v.expires
    }
}

/// Whether access tokens of a revoked family can still be presented.
struct Revoked {
    now: u128,
}

impl Condition<u128> for Revoked {
    closed spec fn holds(&self, v: u128) -> bool {
        self.now < v
    }

    fn check(&self, v: &u128) -> (r: bool) {
        self.now < *v
    }
}

/// Whether a refresh token is of another family.
struct Outside {
    family: u64,
}

impl Condition<RefreshRecord> for Outside {
    closed spec fn holds(&self, v: RefreshView) -> bool {
        v.family != self.family
    }

    fn check(&self, v: &RefreshRecord) -> (r: bool) {
        v.family != self.family
    }
}

impl State {
    /// An empty state.
    fn new(now: u128) -> (r: State)
        ensures
            r@.refresh == Map::<Seq<u8>, RefreshView>::empty(),
            r@.spent == Map::<Seq<u8>, SpentView>::empty(),
            r@.revoked == Map::<u64, u128>::empty(),
            r@.next_sweep == clock::later(now, sweep_interval()),
    {
        State {
            refresh: Table::new(),
            spent: Table::new(),
            revoked: Table::new(),
            next_sweep: clock::after(now, Span::from_secs(SWEEP_INTERVAL_SECS)),
        }
    }

    /// Forgets what has expired, where a sweep is due.
    pub fn sweep(&mut self, now: u128)
        ensures
            final(self)@ == old(self)@.swept(now),
    {
        if now < self.next_sweep {
            return ;
        }
        self.force_sweep(now);
    }

    /// Forgets what has expired.
    pub fn force_sweep(&mut self, now: u128)
        ensures
            final(self)@ == old(self)@.force_swept(now),
    {
        let usable = Live { now };
        let remembered = Remembered { now };
        let revoked = Revoked { now };
        self.refresh.retain(usable);
        self.spent.retain(remembered);
        self.revoked.retain(revoked);
        self.next_sweep = clock::after(now, Span::from_secs(SWEEP_INTERVAL_SECS));
        proof {
            assert((|r: RefreshView| usable.holds(r)) =~= (|r: RefreshView| live(r, now)));
            assert((|r: SpentView| remembered.holds(r)) =~= (|r: SpentView| now < r.expires));
            assert((|until: u128| revoked.holds(until)) =~= (|until: u128| now < until));
        }
    }

    /// Revokes a family.
    pub fn revoke_family(&mut self, family: u64, now: u128, access_ttl: Span)
        ensures
            final(self)@ == old(self)@.family_revoked(family, now, access_ttl),
    {
        let outside = Outside { family };
        self.refresh.retain(outside);
        self.revoked.insert(family, clock::after(now, access_ttl));
        proof {
            assert((|r: RefreshView| outside.holds(r)) =~= (|r: RefreshView| r.family != family));
        }
    }

    /// Whether there is no room for another refresh token.
    fn full(&self) -> (r: bool)
        ensures
            r == self@.is_full(),
    {
        let most: u128 = MAX_RECORDS as u128;
        let live: u128 = self.refresh.len();
        let spent: u128 = self.spent.len();
        live >= most || spent >= most - live
    }

    /// Sweeps where there is no room; fails where that makes none.
    pub fn make_room(&mut self, now: u128) -> (r: Result<(), TokenError>)
        ensures
            final(self)@ == old(self)@.room_made(now),
            match r {
                Ok(_) => !final(self)@.is_full(),
                Err(e) => final(self)@.is_full() && e == TokenError::Full,
            },
    {
        if self.full() {
            self.force_sweep(now);
            if self.full() {
                return Err(TokenError::Full);
            }
        }
        Ok(())
    }
}

// ---------------------------------------------------------------------------------------------
// Access tokens
// ---------------------------------------------------------------------------------------------

/// User names that fit into a token.
pub open spec fn user_fits(user: Seq<char>) -> bool {
    codec::within_limits(encode_utf8(user).len() + 17)
}

/// Presented tokens that can be hashed.
pub open spec fn token_fits(token: Seq<char>) -> bool {
    codec::within_limits(encode_utf8(token).len())
}

/// What an access token says.
pub struct Claims {
    pub family: u64,
    pub expires: u64,
    pub user: Seq<char>,
}

/// The signed part of an access token: the version, the family, the expiry and the user.
pub open spec fn payload(c: Claims) -> Seq<u8> {
    seq![ACCESS_TOKEN_VERSION] + bigendian::be_bytes(c.family as nat, 8) + bigendian::be_bytes(
        c.expires as nat,
        8,
    ) + encode_utf8(c.user)
}

/// What a payload says, if it has the form of one.
pub open spec fn payload_claims(bytes: Seq<u8>) -> Option<Claims> {
    if bytes.len() < 17 || bytes[0] != ACCESS_TOKEN_VERSION {
        None
    } else {
        match codec::utf8_text(bytes.skip(17)) {
            Some(user) => Some(
                Claims {
                    family: bigendian::be_value(bytes.subrange(1, 9)) as u64,
                    expires: bigendian::be_value(bytes.subrange(9, 17)) as u64,
                    user,
                },
            ),
            None => None,
        }
    }
}

/// The access token with the claims `c`, signed with `secret`.
pub open spec fn access_text(secret: Seq<u8>, c: Claims) -> Seq<char> {
    codec::base64url_text(payload(c)) + seq!['.'] + codec::base64url_text(
        crypto::hmac_sha256(secret, payload(c)),
    )
}

/// What an access token says, if `secret` signed it.
pub open spec fn signed_claims(secret: Seq<u8>, token: Seq<char>) -> Option<Claims> {
    match text::split_once(token, '.') {
        None => None,
        Some((body, tag)) => match (codec::base64url_bytes(body), codec::base64url_bytes(tag)) {
            (Some(body), Some(tag)) => if tag == crypto::hmac_sha256(secret, body) {
                payload_claims(body)
            } else {
                None
            },
            _ => None,
        },
    }
}

/// The claims of a payload can be read back.
pub proof fn lemma_payload_round_trip(c: Claims)
    ensures
        payload(c).len() == 17 + encode_utf8(c.user).len(),
        payload_claims(payload(c)) == Some(c),
{
    broadcast use {encode_utf8_valid_utf8, encode_utf8_decode_utf8};

    bigendian::lemma_be_u64(c.family);
    bigendian::lemma_be_u64(c.expires);
    let bytes = payload(c);
    assert(bytes.subrange(1, 9) =~= bigendian::be_bytes(c.family as nat, 8));
    assert(bytes.subrange(9, 17) =~= bigendian::be_bytes(c.expires as nat, 8));
    assert(bytes.skip(17) =~= encode_utf8(c.user));
}

/// A payload is the one of its claims.
pub proof fn lemma_payload_back(bytes: Seq<u8>)
    requires
        payload_claims(bytes) is Some,
    ensures
        bytes == payload(payload_claims(bytes)->0),
{
    broadcast use decode_utf8_encode_utf8;

    bigendian::lemma_eight_bytes(bytes.subrange(1, 9));
    bigendian::lemma_eight_bytes(bytes.subrange(9, 17));
    let c = payload_claims(bytes)->0;
    assert(encode_utf8(c.user) == bytes.skip(17));
    assert(bytes =~= seq![bytes[0]] + bytes.subrange(1, 9) + bytes.subrange(9, 17) + bytes.skip(17));
}

/// The wall clock time `secs` after `wall`, which stops at the end of the clock.
pub open spec fn wall_after(wall: u64, secs: nat) -> u64 {
    if wall + secs <= u64::MAX {
        (wall + secs) as u64
    } else {
        u64::MAX
    }
}

/// How many bytes an access token for `user` has: those of the payload in base64, a dot, and those
/// of the tag in base64.
pub open spec fn access_len(user: Seq<char>) -> nat {
    codec::base64url_len(17 + encode_utf8(user).len()) + 1 + codec::base64url_len(32)
}

/// An access token for `user`, signed with `secret`.
fn mint_access(secret: &[u8], family: u64, expires: u64, user: &str) -> (r: String)
    requires
        codec::within_limits(secret@.len()),
        user_fits(user@),
    ensures
        r@ == access_text(secret@, Claims { family, expires, user: user@ }),
        signed_claims(secret@, r@) == Some(Claims { family, expires, user: user@ }),
        encode_utf8(r@).len() == access_len(user@),
{
    let ghost c = Claims { family, expires, user: user@ };
    let mut bytes: Vec<u8> = Vec::new();
    bytes.push(ACCESS_TOKEN_VERSION);
    codec::append_bytes(&mut bytes, &bigendian::u64_bytes(family));
    codec::append_bytes(&mut bytes, &bigendian::u64_bytes(expires));
    codec::append_bytes(&mut bytes, codec::utf8_bytes(user));
    proof {
        lemma_payload_round_trip(c);
        assert(bytes@ =~= payload(c));
    }
    let tag = crypto::hmac_sign(secret, &bytes);
    let mut r = codec::base64url_encode(&bytes);
    let ghost body = r@;
    let sealed = codec::base64url_encode(&tag);
    r.push('.');
    r.append(sealed.as_str());
    proof {
        assert(r@ =~= body + seq!['.'] + sealed@);
        assert forall|i: int| 0 <= i < body.len() implies r@[i] != '.' by {
            assert(r@[i] == body[i]);
            assert(codec::is_url_safe(body[i]));
        }
        text::lemma_first_unique(r@, '.', body.len() as int);
        assert(r@.take(body.len() as int) =~= body);
        assert(r@.skip(body.len() as int + 1) =~= sealed@);
        assert forall|i: int| 0 <= i < r@.len() implies '\0' <= #[trigger] r@[i] <= '\u{7f}' by {
            if i < body.len() {
                assert(codec::is_url_safe(body[i]));
            } else if i > body.len() {
                assert(codec::is_url_safe(sealed@[i - body.len() - 1]));
            }
        }
        is_ascii_chars_encode_utf8(r@);
    }
    r
}

/// What an access token says, if `secret` signed it.
fn open_access(secret: &[u8], token: &str) -> (r: Option<(u64, u64, String)>)
    requires
        codec::within_limits(secret@.len()),
        token_fits(token@),
    ensures
        match r {
            Some((family, expires, user)) => signed_claims(secret@, token@) == Some(
                Claims { family, expires, user: user@ },
            ),
            None => signed_claims(secret@, token@) is None,
        },
{
    let chars = text::chars_of(token);
    let dot: usize = text::find(&chars, '.');
    if dot == chars.len() {
        return None;
    }
    proof {
        codec::lemma_utf8_len(token@);
        assert(token@.subrange(0, dot as int) =~= token@.take(dot as int));
        assert(token@.subrange(dot + 1, token@.len() as int) =~= token@.skip(dot + 1));
    }
    let body = text::string_of(vstd::slice::slice_subrange(&chars, 0, dot));
    let tag = text::string_of(vstd::slice::slice_subrange(&chars, dot + 1, chars.len()));
    let bytes = match codec::base64url_decode(body.as_str()) {
        Ok(bytes) => bytes,
        Err(_) => return None,
    };
    let tag = match codec::base64url_decode(tag.as_str()) {
        Ok(tag) => tag,
        Err(_) => return None,
    };
    if crypto::hmac_verify(secret, &bytes, &tag).is_err() {
        return None;
    }
    if bytes.len() < 17 || bytes[0] != ACCESS_TOKEN_VERSION {
        return None;
    }
    let family: u64 = bigendian::u64_value(vstd::slice::slice_subrange(&bytes, 1, 9));
    let expires: u64 = bigendian::u64_value(vstd::slice::slice_subrange(&bytes, 9, 17));
    assert(bytes@.subrange(17, bytes@.len() as int) =~= bytes@.skip(17));
    match codec::utf8_string(vstd::slice::slice_subrange(&bytes, 17, bytes.len())) {
        Some(user) => Some((family, expires, user)),
        None => None,
    }
}

// ---------------------------------------------------------------------------------------------
// Refresh tokens
// ---------------------------------------------------------------------------------------------

/// What a refresh token is stored under.
pub open spec fn token_hash(token: Seq<char>) -> Seq<u8> {
    crypto::sha256(encode_utf8(token))
}

/// The SHA-256 of a token.
pub fn hash_token(token: &str) -> (r: Hash)
    requires
        token_fits(token@),
    ensures
        r.bytes@ == token_hash(token@),
{
    Hash { bytes: crypto::sha256_digest(codec::utf8_bytes(token)) }
}

/// Opaque tokens: 43 characters of the URL-safe base64 alphabet.
pub open spec fn is_opaque(token: Seq<char>) -> bool {
    &&& token.len() == 43
    &&& forall|i: int| 0 <= i < token.len() ==> codec::is_url_safe(#[trigger] token[i])
}

/// Drawn tokens: opaque ones that stand for 32 bytes.
pub open spec fn is_drawn(token: Seq<char>) -> bool {
    &&& is_opaque(token)
    &&& exists|bytes: Seq<u8>|
        bytes.len() == TOKEN_BYTES && token == #[trigger] codec::base64url_text(bytes)
}

/// The opaque token that stands for the drawn bytes, base64url without padding.
pub fn drawn_token(drawn: Result<Vec<u8>, ring::error::Unspecified>) -> (r: Result<
    String,
    TokenError,
>)
    requires
        drawn matches Ok(bytes) ==> bytes@.len() == TOKEN_BYTES,
    ensures
        match (drawn, r) {
            (Ok(bytes), Ok(token)) => token@ == codec::base64url_text(bytes@)
                && codec::base64url_bytes(token@) == Some(bytes@) && is_drawn(token@),
            (Err(_), Err(e)) => e == TokenError::Random,
            _ => false,
        },
{
    match drawn {
        Ok(bytes) => Ok(codec::base64url_encode(&bytes)),
        Err(_) => Err(TokenError::Random),
    }
}

/// `fresh` is the text of 32 bytes that the system's generator gave for it; nothing where it
/// failed.
pub open spec fn is_fresh(fresh: Option<Seq<char>>) -> bool {
    exists|drawn: Option<Seq<u8>>| #[trigger]
        crypto::was_drawn(TOKEN_BYTES, drawn) && match (drawn, fresh) {
            (Some(bytes), Some(token)) => token == codec::base64url_text(bytes),
            (None, None) => true,
            _ => false,
        }
}

/// A drawn token, by its contents.
pub open spec fn token_drawn(r: Result<String, TokenError>) -> Option<Seq<char>> {
    match r {
        Ok(token) => Some(token@),
        Err(_) => None,
    }
}

/// Generates an opaque, unguessable token: 256 random bits, base64url without padding.
pub fn generate_token() -> (r: Result<String, TokenError>)
    ensures
        match r {
            Ok(token) => is_drawn(token@),
            Err(e) => e == TokenError::Random,
        },
        is_fresh(token_drawn(r)),
{
    let drawn = crypto::draw(TOKEN_BYTES);
    let ghost bytes = crypto::bytes_of(drawn);
    let r = drawn_token(drawn);
    assert(crypto::was_drawn(TOKEN_BYTES, bytes));
    r
}

/// The number of a new family: the one that the drawn bytes hold, most significant first.
pub fn drawn_family(drawn: Result<Vec<u8>, ring::error::Unspecified>) -> (r: Result<
    u64,
    TokenError,
>)
    requires
        drawn matches Ok(bytes) ==> bytes@.len() == 8,
    ensures
        match (drawn, r) {
            (Ok(bytes), Ok(family)) => family as nat == bigendian::be_value(bytes@),
            (Err(_), Err(e)) => e == TokenError::Random,
            _ => false,
        },
{
    match drawn {
        Ok(bytes) => Ok(bigendian::u64_value(&bytes)),
        Err(_) => Err(TokenError::Random),
    }
}

/// `family` is the number that 8 bytes hold that the system's generator gave for it; nothing where
/// it failed.
pub open spec fn is_new_family(family: Option<u64>) -> bool {
    exists|drawn: Option<Seq<u8>>| #[trigger]
        crypto::was_drawn(8, drawn) && match (drawn, family) {
            (Some(bytes), Some(family)) => family as nat == bigendian::be_value(bytes),
            (None, None) => true,
            _ => false,
        }
}

/// A drawn family.
pub open spec fn family_drawn(r: Result<u64, TokenError>) -> Option<u64> {
    match r {
        Ok(family) => Some(family),
        Err(_) => None,
    }
}

/// A number for a new family, made of random bytes.
pub fn random_family() -> (r: Result<u64, TokenError>)
    ensures
        r matches Err(e) ==> e == TokenError::Random,
        is_new_family(family_drawn(r)),
{
    let drawn = crypto::draw(8);
    let ghost bytes = crypto::bytes_of(drawn);
    let r = drawn_family(drawn);
    assert(crypto::was_drawn(8, bytes));
    r
}

// ---------------------------------------------------------------------------------------------
// The service
// ---------------------------------------------------------------------------------------------

/// Issues, refreshes, revokes and checks tokens.
pub struct TokenService {
    pub secret: Vec<u8>,
    pub access_ttl: Span,
    pub refresh_ttl: Span,
    /// Where the service's clock starts.
    pub started: Instant,
    pub state: State,
}

/// A token service: its secret, how long its tokens live, where its clock starts, and what it
/// remembers.
pub struct ServiceView {
    pub secret: Seq<u8>,
    pub access_ttl: Span,
    pub refresh_ttl: Span,
    pub started: Instant,
    pub state: StateView,
}

impl View for TokenService {
    type V = ServiceView;

    open spec fn view(&self) -> ServiceView {
        ServiceView {
            secret: self.secret@,
            access_ttl: self.access_ttl,
            refresh_ttl: self.refresh_ttl,
            started: self.started,
            state: self.state@,
        }
    }
}

/// The span from `from` to `to`; none where `to` is earlier.
pub open spec fn span_between(from: u128, to: u128) -> Span {
    if from <= to {
        Span { nanos: (to - from) as u128 }
    } else {
        Span { nanos: 0 }
    }
}

/// The earlier of two points.
pub open spec fn earlier(a: u128, b: u128) -> u128 {
    if a <= b {
        a
    } else {
        b
    }
}

impl StateView {
    /// The state fits the bound on records, and its users fit into tokens.
    pub open spec fn wf(self) -> bool {
        &&& self.refresh.dom().finite()
        &&& self.spent.dom().finite()
        &&& self.records() <= MAX_RECORDS
        &&& forall|h: Seq<u8>| #[trigger]
            self.refresh.contains_key(h) ==> user_fits(self.refresh[h].user)
    }
}

impl ServiceView {
    pub open spec fn wf(self) -> bool {
        &&& codec::within_limits(self.secret.len())
        &&& self.state.wf()
    }

    pub open spec fn with(self, state: StateView) -> ServiceView {
        ServiceView { state, ..self }
    }

    /// The pair that is issued, and the state with its refresh token, `fresh`; nothing where no
    /// token could be drawn.
    pub open spec fn issue(
        self,
        family: u64,
        user: Seq<char>,
        now: u128,
        family_deadline: u128,
        wall: u64,
        fresh: Option<Seq<char>>,
    ) -> (StateView, Result<IssuedView, TokenErrorView>) {
        match fresh {
            None => (self.state, Err(TokenErrorView::Random)),
            Some(token) => {
                let expires = earlier(clock::later(now, self.refresh_ttl), family_deadline);
                let record = RefreshView { family, user, expires, family_deadline };
                (
                    StateView {
                        refresh: self.state.refresh.insert(token_hash(token), record),
                        ..self.state
                    },
                    Ok(
                        IssuedView {
                            access_token: access_text(
                                self.secret,
                                Claims {
                                    family,
                                    expires: wall_after(wall, self.access_ttl.spec_secs()),
                                    user,
                                },
                            ),
                            access_expires_in: self.access_ttl.spec_secs(),
                            refresh_token: token,
                            refresh_expires_in: span_between(now, expires).spec_secs(),
                        },
                    ),
                )
            },
        }
    }

    /// A login of `user` at `now`, when the wall clock shows `wall`, for which the family
    /// `family` and the refresh token `fresh` were drawn.
    pub open spec fn login(
        self,
        user: Seq<char>,
        now: u128,
        wall: u64,
        family: Option<u64>,
        fresh: Option<Seq<char>>,
    ) -> (StateView, Result<IssuedView, TokenErrorView>) {
        match family {
            None => (self.state, Err(TokenErrorView::Random)),
            Some(family) => {
                let state = self.state.room_made(now);
                if state.is_full() {
                    (state, Err(TokenErrorView::Full))
                } else {
                    self.with(state).issue(
                        family,
                        user,
                        now,
                        clock::later(now, max_family_lifetime()),
                        wall,
                        fresh,
                    )
                }
            },
        }
    }

    /// The exchange of the refresh token `token` at `now`, when the wall clock shows `wall`, for
    /// which the refresh token `fresh` was drawn; `known` says whether its user still exists.
    pub open spec fn refresh(
        self,
        token: Seq<char>,
        known: bool,
        now: u128,
        wall: u64,
        fresh: Option<Seq<char>>,
    ) -> (StateView, Result<(Seq<char>, IssuedView), TokenErrorView>) {
        let hash = token_hash(token);
        let state = self.state.swept(now).room_made(now);
        if state.is_full() {
            (state, Err(TokenErrorView::Full))
        } else if !state.refresh.contains_key(hash) {
            if state.spent.contains_key(hash) && now < state.spent[hash].expires {
                let spent = state.spent[hash];
                (
                    state.family_revoked(spent.family, now, self.access_ttl),
                    Err(TokenErrorView::Reused { user: spent.user }),
                )
            } else {
                (state, Err(TokenErrorView::Invalid))
            }
        } else {
            let record = state.refresh[hash];
            let taken = StateView { refresh: state.refresh.remove(hash), ..state };
            if !live(record, now) || !known {
                (taken, Err(TokenErrorView::Invalid))
            } else {
                let retired = StateView {
                    spent: taken.spent.insert(
                        hash,
                        SpentView {
                            family: record.family,
                            user: record.user,
                            expires: record.expires,
                        },
                    ),
                    ..taken
                };
                match self.with(retired).issue(
                    record.family,
                    record.user,
                    now,
                    record.family_deadline,
                    wall,
                    fresh,
                ) {
                    (state, Ok(issued)) => (state, Ok((record.user, issued))),
                    (state, Err(e)) => (state, Err(e)),
                }
            }
        }
    }

    /// Whose existence the exchange of the refresh token `token` at `now` asks for: the user of a
    /// live token, where there is room. Otherwise it asks for nobody's.
    pub open spec fn asked(self, token: Seq<char>, now: u128) -> Option<Seq<char>> {
        let hash = token_hash(token);
        let state = self.state.swept(now).room_made(now);
        if !state.is_full() && state.refresh.contains_key(hash) && live(state.refresh[hash], now) {
            Some(state.refresh[hash].user)
        } else {
            None
        }
    }

    /// The family that a refresh token, live or rotated, belongs to.
    pub open spec fn family_of(self, token: Seq<char>) -> Option<u64> {
        let hash = token_hash(token);
        if self.state.refresh.contains_key(hash) {
            Some(self.state.refresh[hash].family)
        } else if self.state.spent.contains_key(hash) {
            Some(self.state.spent[hash].family)
        } else {
            None
        }
    }

    /// The state after the family of `token` was revoked at `now`.
    pub open spec fn revoke(self, token: Seq<char>, now: u128) -> StateView {
        match self.family_of(token) {
            Some(family) => self.state.family_revoked(family, now, self.access_ttl),
            None => self.state,
        }
    }

    /// The user of an access token that is signed, not revoked, and not expired when the wall
    /// clock shows `wall`.
    pub open spec fn verify_access(self, token: Seq<char>, wall: u64) -> Option<Seq<char>> {
        match signed_claims(self.secret, token) {
            Some(c) => if wall < c.expires && !self.state.revoked.contains_key(c.family) {
                Some(c.user)
            } else {
                None
            },
            None => None,
        }
    }

    /// The user of a refresh token that was not exchanged yet.
    pub open spec fn holder(self, token: Seq<char>) -> Option<Seq<char>> {
        let hash = token_hash(token);
        if self.state.refresh.contains_key(hash) {
            Some(self.state.refresh[hash].user)
        } else {
            None
        }
    }
}

/// A login's result, by its contents.
pub open spec fn issued_view(r: Result<IssuedTokens, TokenError>) -> Result<
    IssuedView,
    TokenErrorView,
> {
    match r {
        Ok(issued) => Ok(issued@),
        Err(e) => Err(e@),
    }
}

/// A refresh's result, by its contents.
pub open spec fn refreshed_view(r: Result<(String, IssuedTokens), TokenError>) -> Result<
    (Seq<char>, IssuedView),
    TokenErrorView,
> {
    match r {
        Ok((user, issued)) => Ok((user@, issued@)),
        Err(e) => Err(e@),
    }
}

/// Sweeping keeps a state well formed, and adds no records.
proof fn lemma_swept_wf(s: StateView, now: u128)
    requires
        s.wf(),
    ensures
        s.force_swept(now).wf(),
        s.swept(now).wf(),
        s.room_made(now).wf(),
{
    table::lemma_kept(s.refresh, |r: RefreshView| live(r, now));
    table::lemma_kept(s.spent, |r: SpentView| now < r.expires);
}

/// Revoking a family keeps a state well formed.
proof fn lemma_revoked_wf(s: StateView, family: u64, now: u128, ttl: Span)
    requires
        s.wf(),
    ensures
        s.family_revoked(family, now, ttl).wf(),
{
    table::lemma_kept(s.refresh, |r: RefreshView| r.family != family);
}

impl TokenService {
    /// The service is well formed: its secret can key the signatures, and its state is well
    /// formed.
    pub open spec fn wf(self) -> bool {
        self@.wf()
    }

    /// A service that signs with `secret`, and remembers nothing.
    pub fn new(secret: &[u8], access_ttl: Span, refresh_ttl: Span) -> (r: Self)
        requires
            codec::within_limits(secret@.len()),
        ensures
            r.wf(),
            r@.secret == secret@,
            r@.access_ttl == access_ttl,
            r@.refresh_ttl == refresh_ttl,
            r@.state.refresh == Map::<Seq<u8>, RefreshView>::empty(),
            r@.state.spent == Map::<Seq<u8>, SpentView>::empty(),
            r@.state.revoked == Map::<u64, u128>::empty(),
            r@.state.next_sweep == clock::later(0, sweep_interval()),
            clock::is_instant(r@.started),
    {
        TokenService {
            secret: vstd::slice::slice_to_vec(secret),
            access_ttl,
            refresh_ttl,
            started: clock::instant(),
            state: State::new(0),
        }
    }

    /// Mints a pair for `family` and records the refresh token.
    fn issue(
        &mut self,
        family: u64,
        user: &str,
        now: u128,
        family_deadline: u128,
        wall: u64,
        fresh: Option<String>,
    ) -> (r: Result<IssuedTokens, TokenError>)
        requires
            old(self).wf(),
            !old(self)@.state.is_full(),
            user_fits(user@),
            text::optional(fresh) matches Some(token) ==> token_fits(token),
        ensures
            final(self).wf(),
            final(self)@ == old(self)@.with(final(self)@.state),
            (final(self)@.state, issued_view(r)) == old(self)@.issue(
                family,
                user@,
                now,
                family_deadline,
                wall,
                text::optional(fresh),
            ),
            r matches Ok(issued) ==> signed_claims(old(self)@.secret, issued.access_token@)
                == Some(
                Claims {
                    family,
                    expires: wall_after(wall, old(self)@.access_ttl.spec_secs()),
                    user: user@,
                },
            ) && encode_utf8(issued.access_token@).len() == access_len(user@),
    {
        let refresh_token = match fresh {
            Some(token) => token,
            None => return Err(TokenError::Random),
        };
        let limit: u128 = clock::after(now, self.refresh_ttl);
        let expires: u128 = if limit <= family_deadline {
            limit
        } else {
            family_deadline
        };
        self.state.refresh.insert(
            hash_token(refresh_token.as_str()),
            RefreshRecord { family, user: user.to_owned(), expires, family_deadline },
        );
        let access_secs: u64 = self.access_ttl.as_secs();
        let access_expires: u64 = match wall.checked_add(access_secs) {
            Some(t) => t,
            None => u64::MAX,
        };
        let left = Span {
            nanos: if now <= expires {
                expires - now
            } else {
                0
            },
        };
        Ok(
            IssuedTokens {
                access_token: mint_access(&self.secret, family, access_expires, user),
                access_expires_in: access_secs,
                refresh_token,
                refresh_expires_in: left.as_secs(),
            },
        )
    }

    /// A login of `user` at `now`, when the wall clock shows `wall`, for which `family` and the
    /// refresh token `fresh` were drawn.
    pub fn login_at(
        &mut self,
        user: &str,
        now: u128,
        wall: u64,
        family: Option<u64>,
        fresh: Option<String>,
    ) -> (r: Result<IssuedTokens, TokenError>)
        requires
            old(self).wf(),
            user_fits(user@),
            text::optional(fresh) matches Some(token) ==> token_fits(token),
        ensures
            final(self).wf(),
            final(self)@ == old(self)@.with(final(self)@.state),
            (final(self)@.state, issued_view(r)) == old(self)@.login(
                user@,
                now,
                wall,
                family,
                text::optional(fresh),
            ),
            r matches Ok(issued) ==> signed_claims(old(self)@.secret, issued.access_token@)
                == Some(
                Claims {
                    family: family->0,
                    expires: wall_after(wall, old(self)@.access_ttl.spec_secs()),
                    user: user@,
                },
            ) && encode_utf8(issued.access_token@).len() == access_len(user@),
    {
        let family: u64 = match family {
            Some(family) => family,
            None => return Err(TokenError::Random),
        };
        proof {
            lemma_swept_wf(self@.state, now);
        }
        match self.state.make_room(now) {
            Ok(_) => {},
            Err(e) => return Err(e),
        }
        let deadline: u128 = clock::after(now, Span::from_secs(MAX_FAMILY_LIFETIME_SECS));
        self.issue(family, user, now, deadline, wall, fresh)
    }

    /// Starts a new family for `user`, who has just authenticated with Basic Auth.
    pub fn login(&mut self, user: &str) -> (r: Result<IssuedTokens, TokenError>)
        requires
            old(self).wf(),
            user_fits(user@),
        ensures
            final(self).wf(),
            final(self)@ == old(self)@.with(final(self)@.state),
            exists|now: u128, wall: u64, family: Option<u64>, fresh: Option<Seq<char>>|
                {
                    &&& (final(self)@.state, issued_view(r)) == #[trigger] old(self)@.login(
                        user@,
                        now,
                        wall,
                        family,
                        fresh,
                    )
                    &&& fresh matches Some(token) ==> is_drawn(token)
                    &&& clock::is_elapsed(old(self)@.started, now)
                    &&& clock::is_wall(wall)
                    &&& is_new_family(family)
                    &&& is_fresh(fresh)
                    &&& r matches Ok(issued) ==> signed_claims(
                        old(self)@.secret,
                        issued.access_token@,
                    ) == Some(
                        Claims {
                            family: family->0,
                            expires: wall_after(wall, old(self)@.access_ttl.spec_secs()),
                            user: user@,
                        },
                    ) && encode_utf8(issued.access_token@).len() == access_len(user@)
                },
    {
        let now: u128 = clock::nanos_since(&self.started);
        let wall: u64 = clock::unix_now();
        let family: Option<u64> = random_family().ok();
        let fresh = generate_token().ok();
        proof {
            if fresh is Some {
                lemma_opaque_fits(fresh->0@);
            }
        }
        let ghost token = text::optional(fresh);
        let r = self.login_at(user, now, wall, family, fresh);
        assert((self@.state, issued_view(r)) == old(self)@.login(user@, now, wall, family, token));
        r
    }

    /// The user of a refresh token that was not exchanged yet.
    pub fn holder(&self, refresh_token: &str) -> (r: Option<String>)
        requires
            token_fits(refresh_token@),
        ensures
            text::optional(r) == self@.holder(refresh_token@),
    {
        match self.state.refresh.get(&hash_token(refresh_token)) {
            Some(record) => Some(record.user.clone()),
            None => None,
        }
    }

    /// The exchange of a refresh token at `now`, when the wall clock shows `wall`, for which the
    /// refresh token `fresh` was drawn; `known` says whether its user still exists.
    pub fn refresh_at(
        &mut self,
        refresh_token: &str,
        known: bool,
        now: u128,
        wall: u64,
        fresh: Option<String>,
    ) -> (r: Result<(String, IssuedTokens), TokenError>)
        requires
            old(self).wf(),
            token_fits(refresh_token@),
            text::optional(fresh) matches Some(token) ==> token_fits(token),
        ensures
            final(self).wf(),
            final(self)@ == old(self)@.with(final(self)@.state),
            (final(self)@.state, refreshed_view(r)) == old(self)@.refresh(
                refresh_token@,
                known,
                now,
                wall,
                text::optional(fresh),
            ),
            r matches Ok((user, issued)) ==> signed_claims(
                old(self)@.secret,
                issued.access_token@,
            ) == Some(
                Claims {
                    family: old(self)@.state.refresh[token_hash(refresh_token@)].family,
                    expires: wall_after(wall, old(self)@.access_ttl.spec_secs()),
                    user: user@,
                },
            ) && encode_utf8(issued.access_token@).len() == access_len(user@),
    {
        let answer = |_user: &str| -> (r: bool)
            ensures
                r == known,
            { known };
        let ghost token = text::optional(fresh);
        let r = self.refresh_asking(refresh_token, answer, now, wall, fresh);
        proof {
            let k = choose|k: bool| self.refresh_matches(
                old(self)@,
                r,
                refresh_token@,
                answer,
                k,
                now,
                wall,
                token,
            );
            lemma_asked(old(self)@, refresh_token@, k, known, now, wall, token);
        }
        r
    }

    /// An exchange of a refresh token is answered by `r`, and leaves the service as it is, where
    /// `known` is the answer of `user_exists`, if that is asked.
    pub open spec fn refresh_matches<F: Fn(&str) -> bool>(
        self,
        before: ServiceView,
        r: Result<(String, IssuedTokens), TokenError>,
        token: Seq<char>,
        user_exists: F,
        known: bool,
        now: u128,
        wall: u64,
        fresh: Option<Seq<char>>,
    ) -> bool {
        &&& (self@.state, refreshed_view(r)) == before.refresh(token, known, now, wall, fresh)
        &&& before.asked(token, now) matches Some(user) ==> answered(user_exists, user, known)
        &&& r matches Ok((user, issued)) ==> signed_claims(before.secret, issued.access_token@)
            == Some(
            Claims {
                family: before.state.refresh[token_hash(token)].family,
                expires: wall_after(wall, before.access_ttl.spec_secs()),
                user: user@,
            },
        ) && encode_utf8(issued.access_token@).len() == access_len(user@)
    }

    /// The exchange of a refresh token at `now`, when the wall clock shows `wall`, for which the
    /// refresh token `fresh` was drawn; `user_exists` is asked for the user of a live token only.
    pub fn refresh_asking<F: Fn(&str) -> bool>(
        &mut self,
        refresh_token: &str,
        user_exists: F,
        now: u128,
        wall: u64,
        fresh: Option<String>,
    ) -> (r: Result<(String, IssuedTokens), TokenError>)
        requires
            old(self).wf(),
            token_fits(refresh_token@),
            text::optional(fresh) matches Some(token) ==> token_fits(token),
            forall|user: &str|
                old(self)@.asked(refresh_token@, now) == Some(user@) ==> #[trigger] call_requires(
                    user_exists,
                    (user,),
                ),
        ensures
            final(self).wf(),
            final(self)@ == old(self)@.with(final(self)@.state),
            exists|known: bool| #[trigger]
                final(self).refresh_matches(
                    old(self)@,
                    r,
                    refresh_token@,
                    user_exists,
                    known,
                    now,
                    wall,
                    text::optional(fresh),
                ),
    {
        let ghost drawn = text::optional(fresh);
        let hash = hash_token(refresh_token);
        proof {
            lemma_swept_wf(self@.state, now);
            lemma_swept_wf(self@.state.swept(now), now);
        }
        self.state.sweep(now);
        // Checked before the presented token is consumed, so a full store never costs the
        // client its refresh token.
        match self.state.make_room(now) {
            Ok(_) => {},
            Err(e) => {
                let r = Err(e);
                assert(self.refresh_matches(
                    old(self)@,
                    r,
                    refresh_token@,
                    user_exists,
                    false,
                    now,
                    wall,
                    drawn,
                ));
                return r;
            },
        }
        let ghost state = self@.state;
        let record = match self.state.refresh.remove(&hash) {
            Some(record) => record,
            None => {
                assert(self@.state.refresh =~= state.refresh);
                let r = match self.state.spent.get(&hash) {
                    Some(spent) => if now < spent.expires {
                        let (family, user) = (spent.family, spent.user.clone());
                        proof {
                            lemma_revoked_wf(state, family, now, self.access_ttl);
                        }
                        self.state.revoke_family(family, now, self.access_ttl);
                        Err(TokenError::Reused { user })
                    } else {
                        Err(TokenError::Invalid)
                    },
                    None => Err(TokenError::Invalid),
                };
                assert(self.refresh_matches(
                    old(self)@,
                    r,
                    refresh_token@,
                    user_exists,
                    false,
                    now,
                    wall,
                    drawn,
                ));
                return r;
            },
        };
        if now >= record.expires || now >= record.family_deadline {
            let r = Err(TokenError::Invalid);
            assert(self.refresh_matches(
                old(self)@,
                r,
                refresh_token@,
                user_exists,
                false,
                now,
                wall,
                drawn,
            ));
            return r;
        }
        let known = user_exists(record.user.as_str());
        assert(answered(user_exists, record.user@, known));
        if !known {
            let r = Err(TokenError::Invalid);
            assert(self.refresh_matches(
                old(self)@,
                r,
                refresh_token@,
                user_exists,
                known,
                now,
                wall,
                drawn,
            ));
            return r;
        }
        // Retire the presented token first; the new pair then replaces it, so the store does
        // not grow by more than one record per refresh.
        self.state.spent.insert(
            hash,
            SpentRecord {
                family: record.family,
                user: record.user.clone(),
                expires: record.expires,
            },
        );
        let r = match self.issue(
            record.family,
            record.user.as_str(),
            now,
            record.family_deadline,
            wall,
            fresh,
        ) {
            Ok(issued) => Ok((record.user, issued)),
            Err(e) => Err(e),
        };
        assert(self.refresh_matches(
            old(self)@,
            r,
            refresh_token@,
            user_exists,
            known,
            now,
            wall,
            drawn,
        ));
        r
    }

    /// Exchanges a refresh token for a new pair and retires the old token.
    ///
    /// `user_exists` lets the caller drop the login of a user that was removed from the
    /// credentials in the meantime; it is asked for the user of a live token only. Returns the user
    /// along with the new tokens.
    pub fn refresh<F: Fn(&str) -> bool>(&mut self, refresh_token: &str, user_exists: F) -> (r:
        Result<(String, IssuedTokens), TokenError>)
        requires
            old(self).wf(),
            token_fits(refresh_token@),
            forall|now: u128, user: &str|
                #![trigger old(self)@.asked(refresh_token@, now), call_requires(user_exists, (user,))]
                old(self)@.asked(refresh_token@, now) == Some(user@) ==> call_requires(
                    user_exists,
                    (user,),
                ),
        ensures
            final(self).wf(),
            final(self)@ == old(self)@.with(final(self)@.state),
            exists|known: bool, now: u128, wall: u64, fresh: Option<Seq<char>>|
                {
                    &&& #[trigger] final(self).refresh_matches(
                        old(self)@,
                        r,
                        refresh_token@,
                        user_exists,
                        known,
                        now,
                        wall,
                        fresh,
                    )
                    &&& fresh matches Some(token) ==> is_drawn(token)
                    &&& clock::is_elapsed(old(self)@.started, now)
                    &&& clock::is_wall(wall)
                    &&& is_fresh(fresh)
                },
    {
        let now: u128 = clock::nanos_since(&self.started);
        let wall: u64 = clock::unix_now();
        let fresh = generate_token().ok();
        proof {
            if fresh is Some {
                lemma_opaque_fits(fresh->0@);
            }
        }
        self.refresh_asking(refresh_token, user_exists, now, wall, fresh)
    }

    /// Revokes the family of `refresh_token` at `now`. Returns whether the token was known.
    pub fn revoke_at(&mut self, refresh_token: &str, now: u128) -> (r: bool)
        requires
            old(self).wf(),
            token_fits(refresh_token@),
        ensures
            final(self).wf(),
            final(self)@ == old(self)@.with(old(self)@.revoke(refresh_token@, now)),
            r == (old(self)@.family_of(refresh_token@) is Some),
    {
        let hash = hash_token(refresh_token);
        let family: u64 = match self.state.refresh.get(&hash) {
            Some(record) => record.family,
            None => match self.state.spent.get(&hash) {
                Some(record) => record.family,
                None => return false,
            },
        };
        proof {
            lemma_revoked_wf(self@.state, family, now, self.access_ttl);
        }
        self.state.revoke_family(family, now, self.access_ttl);
        true
    }

    /// Logs out: revokes the family of `refresh_token`. Returns whether the token was known.
    pub fn revoke(&mut self, refresh_token: &str) -> (r: bool)
        requires
            old(self).wf(),
            token_fits(refresh_token@),
        ensures
            final(self).wf(),
            exists|now: u128|
                final(self)@ == old(self)@.with(#[trigger] old(self)@.revoke(refresh_token@, now))
                    && clock::is_elapsed(old(self)@.started, now),
            r == (old(self)@.family_of(refresh_token@) is Some),
    {
        let now: u128 = clock::nanos_since(&self.started);
        let r = self.revoke_at(refresh_token, now);
        assert(self@ == old(self)@.with(old(self)@.revoke(refresh_token@, now)));
        r
    }

    /// Checks the signature, expiry and revocation of an access token when the wall clock shows
    /// `wall`, and returns its user.
    pub fn verify_access_at(&self, token: &str, wall: u64) -> (r: Option<String>)
        requires
            self.wf(),
            token_fits(token@),
        ensures
            text::optional(r) == self@.verify_access(token@, wall),
    {
        match open_access(&self.secret, token) {
            Some((family, expires, user)) => {
                if wall >= expires || self.state.revoked.contains_key(&family) {
                    None
                } else {
                    Some(user)
                }
            },
            None => None,
        }
    }

    /// Checks the signature, expiry and revocation of an access token and returns its user.
    ///
    /// The caller still has to check that the user exists.
    pub fn verify_access(&self, token: &str) -> (r: Option<String>)
        requires
            self.wf(),
            token_fits(token@),
        ensures
            exists|wall: u64|
                text::optional(r) == #[trigger] self@.verify_access(token@, wall)
                    && clock::is_wall(wall),
    {
        let wall: u64 = clock::unix_now();
        self.verify_access_at(token, wall)
    }
}

/// The answer makes no difference where it is not asked for.
proof fn lemma_asked(
    s: ServiceView,
    token: Seq<char>,
    one: bool,
    other: bool,
    now: u128,
    wall: u64,
    fresh: Option<Seq<char>>,
)
    requires
        s.asked(token, now) is Some ==> one == other,
    ensures
        s.refresh(token, one, now, wall, fresh) == s.refresh(token, other, now, wall, fresh),
{
}

/// `known` is an answer of `user_exists` on `user`.
pub open spec fn answered<F: Fn(&str) -> bool>(
    user_exists: F,
    user: Seq<char>,
    known: bool,
) -> bool {
    exists|u: &str| u@ == user && #[trigger] call_ensures(user_exists, (u,), known)
}

/// Opaque tokens can be hashed.
pub proof fn lemma_opaque_fits(token: Seq<char>)
    requires
        is_opaque(token),
    ensures
        token_fits(token),
{
    assert forall|i: int| 0 <= i < token.len() implies (#[trigger] token[i]) as u32 <= 127 by {
        assert(codec::is_url_safe(token[i]));
    }
    assert(is_ascii_chars(token));
    is_ascii_chars_encode_utf8(token);
}

// ---------------------------------------------------------------------------------------------
// The signing secret
// ---------------------------------------------------------------------------------------------

/// Why there is no signing secret.
#[derive(Debug, PartialEq, Eq)]
pub enum SecretError {
    /// The secret file holds too few bytes.
    TooShort { found: usize },
    /// The system random number generator failed.
    Random,
}

impl SecretError {
    /// What the error says of the secret file at `path`.
    pub open spec fn spec_text(&self, path: Seq<char>) -> Seq<char> {
        match self {
            SecretError::TooShort { found } => "token secret file "@ + path
                + " must hold at least 32 bytes, found "@ + text::decimal(*found as nat),
            SecretError::Random => "system random number generator failed"@,
        }
    }

    /// What the error says of the secret file at `path`.
    pub fn text(&self, path: &str) -> (r: String)
        ensures
            r@ == self.spec_text(path@),
    {
        match self {
            SecretError::TooShort { found } => "token secret file ".to_owned().concat(path).concat(
                " must hold at least 32 bytes, found ",
            ).concat(text::decimal_string(*found as u64).as_str()),
            SecretError::Random => "system random number generator failed".to_owned(),
        }
    }
}

/// The white space of ASCII.
pub open spec fn is_ascii_white(b: u8) -> bool {
    b == 9 || b == 10 || b == 12 || b == 13 || b == 32
}

/// `s` without the ASCII white space at its start.
pub open spec fn ascii_trim_start(s: Seq<u8>) -> Seq<u8>
    decreases s.len(),
{
    if s.len() > 0 && is_ascii_white(s[0]) {
        ascii_trim_start(s.skip(1))
    } else {
        s
    }
}

/// `s` without the ASCII white space at its end.
pub open spec fn ascii_trim_end(s: Seq<u8>) -> Seq<u8>
    decreases s.len(),
{
    if s.len() > 0 && is_ascii_white(s.last()) {
        ascii_trim_end(s.drop_last())
    } else {
        s
    }
}

/// The secret that the contents of a secret file hold.
pub open spec fn secret_in(contents: Seq<u8>) -> Seq<u8> {
    ascii_trim_end(ascii_trim_start(contents))
}

fn ascii_white(b: u8) -> (r: bool)
    ensures
        r == is_ascii_white(b),
{
    b == 9 || b == 10 || b == 12 || b == 13 || b == 32
}

/// The secret that the contents of a secret file hold; it has to be long enough.
pub fn load_secret(contents: &[u8]) -> (r: Result<Vec<u8>, SecretError>)
    ensures
        match r {
            Ok(secret) => secret@ == secret_in(contents@) && secret@.len() >= MIN_SECRET_BYTES
                && secret@.len() <= contents@.len(),
            Err(e) => secret_in(contents@).len() < MIN_SECRET_BYTES && e == (
            SecretError::TooShort { found: secret_in(contents@).len() as usize }),
        },
{
    let mut i: usize = 0;
    assert(contents@.skip(0) =~= contents@);
    while i < contents.len() && ascii_white(contents[i])
        invariant
            i <= contents@.len(),
            ascii_trim_start(contents@) == ascii_trim_start(contents@.skip(i as int)),
        decreases contents.len() - i,
    {
        assert(contents@.skip(i as int).skip(1) =~= contents@.skip(i as int + 1));
        i += 1;
    }
    let ghost t = contents@.skip(i as int);
    assert(ascii_trim_start(contents@) == t);
    let mut j: usize = contents.len();
    assert(t =~= contents@.subrange(i as int, j as int));
    while j > i && ascii_white(contents[j - 1])
        invariant
            i <= j <= contents@.len(),
            ascii_trim_end(t) == ascii_trim_end(contents@.subrange(i as int, j as int)),
        decreases j,
    {
        assert(contents@.subrange(i as int, j as int).drop_last() =~= contents@.subrange(
            i as int,
            j - 1,
        ));
        j -= 1;
    }
    let secret = vstd::slice::slice_subrange(contents, i, j);
    if secret.len() < MIN_SECRET_BYTES {
        return Err(SecretError::TooShort { found: secret.len() });
    }
    Ok(vstd::slice::slice_to_vec(secret))
}

impl TokenService {
    /// A service whose tokens live for the given numbers of seconds. It signs with the secret in
    /// `contents`, what the configured secret file holds; where none is configured, with random
    /// bytes.
    pub fn from_args(
        contents: Option<&[u8]>,
        access_token_ttl: u64,
        refresh_token_ttl: u64,
    ) -> (r: Result<Self, SecretError>)
        requires
            contents matches Some(bytes) ==> codec::within_limits(bytes@.len()),
        ensures
            match (r, contents) {
                (Ok(service), Some(bytes)) => secret_in(bytes@).len() >= MIN_SECRET_BYTES
                    && service@.secret == secret_in(bytes@),
                (Ok(service), None) => service@.secret.len() == TOKEN_BYTES && crypto::was_drawn(
                    TOKEN_BYTES,
                    Some(service@.secret),
                ),
                (Err(e), Some(bytes)) => secret_in(bytes@).len() < MIN_SECRET_BYTES && e == (
                SecretError::TooShort { found: secret_in(bytes@).len() as usize }),
                (Err(e), None) => e == SecretError::Random && crypto::was_drawn(TOKEN_BYTES, None),
            },
            r matches Ok(service) ==> {
                &&& service.wf()
                &&& service@.access_ttl.nanos == access_token_ttl * 1_000_000_000
                &&& service@.refresh_ttl.nanos == refresh_token_ttl * 1_000_000_000
                &&& service@.state.refresh == Map::<Seq<u8>, RefreshView>::empty()
                &&& service@.state.spent == Map::<Seq<u8>, SpentView>::empty()
                &&& service@.state.revoked == Map::<u64, u128>::empty()
                &&& service@.state.next_sweep == clock::later(0, sweep_interval())
                &&& clock::is_instant(service@.started)
            },
    {
        let secret = match contents {
            Some(bytes) => match load_secret(bytes) {
                Ok(secret) => secret,
                Err(e) => return Err(e),
            },
            None => match crypto::draw(TOKEN_BYTES) {
                Ok(secret) => secret,
                Err(_) => return Err(SecretError::Random),
            },
        };
        Ok(
            TokenService::new(
                &secret,
                Span::from_secs(access_token_ttl),
                Span::from_secs(refresh_token_ttl),
            ),
        )
    }
}

/// A refresh token is 32 bytes that were drawn, in Base64, and a family is the number that 8 drawn
/// bytes make; there is none where nothing could be drawn.
pub proof fn law_tokens_and_families_are_drawn(fresh: Option<Seq<char>>, family: Option<u64>)
    ensures
        is_fresh(fresh) ==> exists|drawn: Option<Seq<u8>>|
            {
                &&& #[trigger] crypto::was_drawn(32, drawn)
                &&& drawn is Some <==> fresh is Some
                &&& drawn is Some ==> fresh == Some(codec::base64url_text(drawn->0))
            },
        is_new_family(family) ==> exists|drawn: Option<Seq<u8>>|
            {
                &&& #[trigger] crypto::was_drawn(8, drawn)
                &&& drawn is Some <==> family is Some
                &&& drawn is Some ==> family->0 == bigendian::be_value(drawn->0)
            },
{
    if is_fresh(fresh) {
        let drawn = choose|drawn: Option<Seq<u8>>| #[trigger]
            crypto::was_drawn(TOKEN_BYTES, drawn) && match (drawn, fresh) {
                (Some(bytes), Some(token)) => token == codec::base64url_text(bytes),
                (None, None) => true,
                _ => false,
            };
        assert(crypto::was_drawn(32, drawn));
    }
    if is_new_family(family) {
        let drawn = choose|drawn: Option<Seq<u8>>| #[trigger]
            crypto::was_drawn(8, drawn) && match (drawn, family) {
                (Some(bytes), Some(family)) => family as nat == bigendian::be_value(bytes),
                (None, None) => true,
                _ => false,
            };
        assert(crypto::was_drawn(8, drawn));
    }
}

} // verus!
