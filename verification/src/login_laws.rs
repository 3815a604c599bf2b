//! What a login, an exchange and a revocation do to the store and give out, in full.
use crate::bigendian;
use crate::clock;
use crate::clock::Span;
use crate::codec;
use crate::crypto;
use crate::text_laws;
use crate::token;
use crate::token::{
    Claims, IssuedView, RefreshView, ServiceView, SpentView, StateView, TokenErrorView,
};
use vstd::prelude::*;
use vstd::utf8::*;

verus! {

/// The lesser of two numbers.
pub open spec fn least(a: int, b: int) -> int {
    if a <= b {
        a
    } else {
        b
    }
}

// ---------------------------------------------------------------------------------------------
// Time
// ---------------------------------------------------------------------------------------------

/// Times are counted in nanoseconds and never run over; a lifetime is told in whole seconds.
pub proof fn law_times_are_counted_in_nanoseconds(at: u128, span: Span)
    ensures
        clock::later(at, span) == least(at + span.nanos, u128::MAX as int),
        span.spec_secs() == least(span.nanos as int / 1_000_000_000, u64::MAX as int),
{
}

// ---------------------------------------------------------------------------------------------
// Access tokens
// ---------------------------------------------------------------------------------------------

/// Numbers are written with the most significant byte first.
pub proof fn law_numbers_are_written_big_endian(bytes: Seq<u8>, last: u8, n: u64)
    ensures
        bigendian::be_value(Seq::empty()) == 0,
        bigendian::be_value(bytes.push(last)) == 256 * bigendian::be_value(bytes) + last,
        bigendian::be_bytes(n as nat, 8).len() == 8,
        bigendian::be_value(bigendian::be_bytes(n as nat, 8)) == n,
{
    bigendian::lemma_be_u64(n);
    assert(bytes.push(last).drop_last() =~= bytes);
}

/// The signed part of an access token is a version byte, the family, when the token expires, and
/// the user in UTF-8, and is read back as it is written; bytes of another form are not read.
pub proof fn law_what_an_access_token_carries(
    c: Claims,
    family: Seq<u8>,
    expires: Seq<u8>,
    user: Seq<u8>,
    other: Seq<u8>,
)
    ensures
        family.len() == 8 && bigendian::be_value(family) == c.family && expires.len() == 8
            && bigendian::be_value(expires) == c.expires && user == encode_utf8(c.user) ==> ({
            let bytes = seq![1u8] + family + expires + user;
            &&& token::payload(c) == bytes
            &&& token::payload_claims(bytes) == Some(c)
        }),
        other.len() < 17 ==> token::payload_claims(other) is None,
        other.len() > 0 && other[0] != 1 ==> token::payload_claims(other) is None,
        other.len() >= 17 && !valid_utf8(other.skip(17)) ==> token::payload_claims(other) is None,
{
    if family.len() == 8 && bigendian::be_value(family) == c.family && expires.len() == 8
        && bigendian::be_value(expires) == c.expires && user == encode_utf8(c.user) {
        bigendian::lemma_eight_bytes(family);
        bigendian::lemma_eight_bytes(expires);
        token::lemma_payload_round_trip(c);
        assert(token::payload(c) =~= seq![1u8] + family + expires + user);
    }
}

/// An access token is its payload and the payload's signature, both in Base64, with a dot between
/// them. It is believed where the signature is that of the payload under the service's secret, and
/// nowhere else.
pub proof fn law_which_access_tokens_are_believed(
    secret: Seq<u8>,
    body: Seq<char>,
    tag: Seq<char>,
    text: Seq<char>,
    c: Claims,
)
    requires
        !body.contains('.'),
    ensures
        token::access_text(secret, c) == codec::base64url_text(token::payload(c)) + seq!['.']
            + codec::base64url_text(crypto::hmac_sha256(secret, token::payload(c))),
        !text.contains('.') ==> token::signed_claims(secret, text) is None,
        ({
            let signed = token::signed_claims(secret, body + seq!['.'] + tag);
            match (codec::base64url_bytes(body), codec::base64url_bytes(tag)) {
                (Some(p), Some(t)) => signed == (if t == crypto::hmac_sha256(secret, p) {
                    token::payload_claims(p)
                } else {
                    None
                }),
                _ => signed is None,
            }
        }),
{
    text_laws::law_cutting_at_the_first(text, '.', body, tag);
    text_laws::law_cutting_at_the_first(body + seq!['.'] + tag, '.', body, tag);
}

/// An access token is good for its user until the wall clock reaches its expiry, while its family
/// is not revoked.
pub proof fn law_until_when_access_tokens_are_good(s: ServiceView, text: Seq<char>, wall: u64)
    ensures
        match token::signed_claims(s.secret, text) {
            Some(c) => {
                &&& wall >= c.expires ==> s.verify_access(text, wall) is None
                &&& s.state.revoked.contains_key(c.family) ==> s.verify_access(text, wall) is None
                &&& wall < c.expires && !s.state.revoked.contains_key(c.family)
                    ==> s.verify_access(text, wall) == Some(c.user)
            },
            None => s.verify_access(text, wall) is None,
        },
{
}

// ---------------------------------------------------------------------------------------------
// Sweeping
// ---------------------------------------------------------------------------------------------

/// A sweep forgets what has expired and keeps everything else as it is: refresh tokens that reached
/// their own expiry or their family's deadline, rotated tokens and revocations that reached theirs.
/// The next one is due after 60 seconds.
pub proof fn law_what_a_sweep_forgets(s: StateView, now: u128, h: Seq<u8>, family: u64)
    ensures
        ({
            let t = s.force_swept(now);
            &&& t.refresh.contains_key(h) <==> s.refresh.contains_key(h) && now
                < s.refresh[h].expires && now < s.refresh[h].family_deadline
            &&& t.refresh.contains_key(h) ==> t.refresh[h] == s.refresh[h]
            &&& t.spent.contains_key(h) <==> s.spent.contains_key(h) && now < s.spent[h].expires
            &&& t.spent.contains_key(h) ==> t.spent[h] == s.spent[h]
            &&& t.revoked.contains_key(family) <==> s.revoked.contains_key(family) && now
                < s.revoked[family]
            &&& t.revoked.contains_key(family) ==> t.revoked[family] == s.revoked[family]
            &&& t.next_sweep == least(now + 60_000_000_000, u128::MAX as int)
        }),
{
}

/// A sweep takes place once it is due, and where the store holds 100000 records; no sooner.
pub proof fn law_when_the_store_is_swept(s: StateView, now: u128)
    ensures
        s.swept(now) == (if now >= s.next_sweep {
            s.force_swept(now)
        } else {
            s
        }),
        s.room_made(now) == (if s.refresh.len() + s.spent.len() >= 100_000 {
            s.force_swept(now)
        } else {
            s
        }),
        s.is_full() <==> s.refresh.len() + s.spent.len() >= 100_000,
{
}

// ---------------------------------------------------------------------------------------------
// Logging in
// ---------------------------------------------------------------------------------------------

/// What is given out: an access token for the user, signed with the secret, and the refresh token.
pub open spec fn is_issued(
    s: ServiceView,
    issued: IssuedView,
    family: u64,
    user: Seq<char>,
    now: u128,
    expires: u128,
    wall: u64,
    fresh: Seq<char>,
) -> bool {
    let secs = least(s.access_ttl.nanos as int / 1_000_000_000, u64::MAX as int);
    let claims = Claims { family, expires: least(wall + secs, u64::MAX as int) as u64, user };
    let left = if expires >= now {
        expires - now
    } else {
        0
    };
    &&& issued.refresh_token == fresh
    &&& issued.access_token == codec::base64url_text(token::payload(claims)) + seq!['.']
        + codec::base64url_text(crypto::hmac_sha256(s.secret, token::payload(claims)))
    &&& issued.access_expires_in == secs
    &&& issued.refresh_expires_in == least(left / 1_000_000_000, u64::MAX as int)
}

/// A login starts a family: its refresh token is remembered by its hash, with its user, until its
/// lifetime is over and no longer than 30 days, and the rest of the store stays as it is.
pub proof fn law_what_a_login_does(
    s: ServiceView,
    user: Seq<char>,
    now: u128,
    wall: u64,
    family: u64,
    fresh: Seq<char>,
)
    requires
        s.state.refresh.len() + s.state.spent.len() < 100_000,
    ensures
        ({
            let (after, r) = s.login(user, now, wall, Some(family), Some(fresh));
            let deadline = least(now + 2_592_000_000_000_000, u128::MAX as int);
            let expires = least(
                least(now + s.refresh_ttl.nanos, u128::MAX as int),
                deadline,
            );
            &&& after.refresh == s.state.refresh.insert(
                crypto::sha256(encode_utf8(fresh)),
                RefreshView {
                    family,
                    user,
                    expires: expires as u128,
                    family_deadline: deadline as u128,
                },
            )
            &&& after.spent == s.state.spent
            &&& after.revoked == s.state.revoked
            &&& after.next_sweep == s.state.next_sweep
            &&& r matches Ok(issued) && is_issued(
                s,
                issued,
                family,
                user,
                now,
                expires as u128,
                wall,
                fresh,
            )
        }),
{
}

/// A login into a full store sweeps it first, and fails where that makes no room.
pub proof fn law_a_login_into_a_full_store(
    s: ServiceView,
    user: Seq<char>,
    now: u128,
    wall: u64,
    family: u64,
    fresh: Option<Seq<char>>,
)
    requires
        s.state.refresh.len() + s.state.spent.len() >= 100_000,
    ensures
        ({
            let t = s.state.force_swept(now);
            s.login(user, now, wall, Some(family), fresh) == (if t.refresh.len() + t.spent.len()
                >= 100_000 {
                (t, Err::<IssuedView, TokenErrorView>(TokenErrorView::Full))
            } else {
                s.with(t).login(user, now, wall, Some(family), fresh)
            })
        }),
{
}

/// Where no family or no token can be drawn, a login fails and changes nothing.
pub proof fn law_a_login_needs_random_numbers(
    s: ServiceView,
    user: Seq<char>,
    now: u128,
    wall: u64,
    family: u64,
    fresh: Option<Seq<char>>,
)
    requires
        s.state.refresh.len() + s.state.spent.len() < 100_000,
    ensures
        s.login(user, now, wall, None, fresh) == (
            s.state,
            Err::<IssuedView, TokenErrorView>(TokenErrorView::Random),
        ),
        s.login(user, now, wall, Some(family), None) == (
            s.state,
            Err::<IssuedView, TokenErrorView>(TokenErrorView::Random),
        ),
{
}

// ---------------------------------------------------------------------------------------------
// Exchanging
// ---------------------------------------------------------------------------------------------

/// A refresh token that is known, has reached neither its expiry nor its family's deadline, and
/// whose user exists is exchanged: it is remembered as rotated until it would have expired, and in
/// its place stands the new one, of the same family and user and with the same deadline. Nothing
/// else changes.
pub proof fn law_what_an_exchange_does(
    s: ServiceView,
    refresh_token: Seq<char>,
    now: u128,
    wall: u64,
    fresh: Seq<char>,
)
    requires
        now < s.state.next_sweep,
        s.state.refresh.len() + s.state.spent.len() < 100_000,
        ({
            let hash = crypto::sha256(encode_utf8(refresh_token));
            &&& s.state.refresh.contains_key(hash)
            &&& now < s.state.refresh[hash].expires
            &&& now < s.state.refresh[hash].family_deadline
        }),
    ensures
        ({
            let hash = crypto::sha256(encode_utf8(refresh_token));
            let record = s.state.refresh[hash];
            let (after, r) = s.refresh(refresh_token, true, now, wall, Some(fresh));
            let expires = least(
                least(now + s.refresh_ttl.nanos, u128::MAX as int),
                record.family_deadline as int,
            );
            &&& after.refresh == s.state.refresh.remove(hash).insert(
                crypto::sha256(encode_utf8(fresh)),
                RefreshView {
                    family: record.family,
                    user: record.user,
                    expires: expires as u128,
                    family_deadline: record.family_deadline,
                },
            )
            &&& after.spent == s.state.spent.insert(
                hash,
                SpentView {
                    family: record.family,
                    user: record.user,
                    expires: record.expires,
                },
            )
            &&& after.revoked == s.state.revoked
            &&& after.next_sweep == s.state.next_sweep
            &&& r matches Ok((user, issued)) && user == record.user && is_issued(
                s,
                issued,
                record.family,
                record.user,
                now,
                expires as u128,
                wall,
                fresh,
            )
        }),
{
}

/// A refresh token that has reached its expiry or its family's deadline, or whose user no longer
/// exists, is refused and forgotten, and nothing else changes.
pub proof fn law_an_expired_token_is_refused(
    s: ServiceView,
    refresh_token: Seq<char>,
    known: bool,
    now: u128,
    wall: u64,
    fresh: Option<Seq<char>>,
)
    requires
        now < s.state.next_sweep,
        s.state.refresh.len() + s.state.spent.len() < 100_000,
        ({
            let hash = crypto::sha256(encode_utf8(refresh_token));
            &&& s.state.refresh.contains_key(hash)
            &&& now >= s.state.refresh[hash].expires || now
                >= s.state.refresh[hash].family_deadline || !known
        }),
    ensures
        ({
            let hash = crypto::sha256(encode_utf8(refresh_token));
            let (after, r) = s.refresh(refresh_token, known, now, wall, fresh);
            &&& r == Err::<(Seq<char>, IssuedView), TokenErrorView>(TokenErrorView::Invalid)
            &&& after.refresh == s.state.refresh.remove(hash)
            &&& after.spent == s.state.spent
            &&& after.revoked == s.state.revoked
            &&& after.next_sweep == s.state.next_sweep
        }),
{
}

/// A token that nobody knows is refused, and nothing changes; a rotated token that would not have
/// expired yet gives its family away, whose refresh tokens are all forgotten and whose access
/// tokens are refused for as long as one may be in use.
pub proof fn law_unknown_and_rotated_tokens(
    s: ServiceView,
    refresh_token: Seq<char>,
    known: bool,
    now: u128,
    wall: u64,
    fresh: Option<Seq<char>>,
    h: Seq<u8>,
)
    requires
        now < s.state.next_sweep,
        s.state.refresh.len() + s.state.spent.len() < 100_000,
        !s.state.refresh.contains_key(crypto::sha256(encode_utf8(refresh_token))),
    ensures
        ({
            let hash = crypto::sha256(encode_utf8(refresh_token));
            let (after, r) = s.refresh(refresh_token, known, now, wall, fresh);
            if s.state.spent.contains_key(hash) && now < s.state.spent[hash].expires {
                let spent = s.state.spent[hash];
                &&& r == Err::<(Seq<char>, IssuedView), TokenErrorView>(
                    TokenErrorView::Reused { user: spent.user },
                )
                &&& after.refresh.contains_key(h) <==> s.state.refresh.contains_key(h)
                    && s.state.refresh[h].family != spent.family
                &&& after.refresh.contains_key(h) ==> after.refresh[h] == s.state.refresh[h]
                &&& after.spent == s.state.spent
                &&& after.revoked == s.state.revoked.insert(
                    spent.family,
                    least(now + s.access_ttl.nanos, u128::MAX as int) as u128,
                )
                &&& after.next_sweep == s.state.next_sweep
            } else {
                &&& r == Err::<(Seq<char>, IssuedView), TokenErrorView>(TokenErrorView::Invalid)
                &&& after == s.state
            }
        }),
{
}

/// An exchange when a sweep is due, or in a full store, is one in the swept store; where that is
/// still full it fails, and the token stays.
pub proof fn law_an_exchange_sweeps_first(
    s: ServiceView,
    refresh_token: Seq<char>,
    known: bool,
    now: u128,
    wall: u64,
    fresh: Option<Seq<char>>,
)
    requires
        now >= s.state.next_sweep || s.state.refresh.len() + s.state.spent.len() >= 100_000,
        now < u128::MAX,
    ensures
        ({
            let t = s.state.force_swept(now);
            s.refresh(refresh_token, known, now, wall, fresh) == (if t.refresh.len()
                + t.spent.len() >= 100_000 {
                (t, Err::<(Seq<char>, IssuedView), TokenErrorView>(TokenErrorView::Full))
            } else {
                s.with(t).refresh(refresh_token, known, now, wall, fresh)
            })
        }),
{
    let t = s.state.force_swept(now);
    assert(t.refresh =~= t.force_swept(now).refresh);
    assert(t.spent =~= t.force_swept(now).spent);
    assert(t.revoked =~= t.force_swept(now).revoked);
    assert(t.force_swept(now) == t);
}

/// Whether the user exists is asked only of a token that could be exchanged, and is the user that
/// the token belongs to.
pub proof fn law_which_user_is_asked_for(s: ServiceView, refresh_token: Seq<char>, now: u128)
    requires
        now < s.state.next_sweep,
        s.state.refresh.len() + s.state.spent.len() < 100_000,
    ensures
        ({
            let hash = crypto::sha256(encode_utf8(refresh_token));
            s.asked(refresh_token, now) == (if s.state.refresh.contains_key(hash) && now
                < s.state.refresh[hash].expires && now < s.state.refresh[hash].family_deadline {
                Some(s.state.refresh[hash].user)
            } else {
                None
            })
        }),
{
}

// ---------------------------------------------------------------------------------------------
// Revoking
// ---------------------------------------------------------------------------------------------

/// A revocation ends the family of a refresh token, current or rotated: all its refresh tokens are
/// forgotten and its access tokens are refused for as long as one may be in use. The other families
/// stay as they are, and an unknown token changes nothing.
pub proof fn law_what_a_revocation_does(
    s: ServiceView,
    refresh_token: Seq<char>,
    now: u128,
    h: Seq<u8>,
)
    ensures
        ({
            let hash = crypto::sha256(encode_utf8(refresh_token));
            let after = s.revoke(refresh_token, now);
            let ends = |family: u64|
                {
                    &&& after.refresh.contains_key(h) <==> s.state.refresh.contains_key(h)
                        && s.state.refresh[h].family != family
                    &&& after.refresh.contains_key(h) ==> after.refresh[h] == s.state.refresh[h]
                    &&& after.spent == s.state.spent
                    &&& after.revoked == s.state.revoked.insert(
                        family,
                        least(now + s.access_ttl.nanos, u128::MAX as int) as u128,
                    )
                    &&& after.next_sweep == s.state.next_sweep
                };
            &&& s.state.refresh.contains_key(hash) ==> ends(s.state.refresh[hash].family)
            &&& !s.state.refresh.contains_key(hash) && s.state.spent.contains_key(hash) ==> ends(
                s.state.spent[hash].family,
            )
            &&& !s.state.refresh.contains_key(hash) && !s.state.spent.contains_key(hash)
                ==> after == s.state
        }),
{
}

/// A refresh token belongs to the user that its record names.
pub proof fn law_who_holds_a_refresh_token(s: ServiceView, refresh_token: Seq<char>)
    ensures
        ({
            let hash = crypto::sha256(encode_utf8(refresh_token));
            s.holder(refresh_token) == (if s.state.refresh.contains_key(hash) {
                Some(s.state.refresh[hash].user)
            } else {
                None
            })
        }),
{
}

// ---------------------------------------------------------------------------------------------
// The secret
// ---------------------------------------------------------------------------------------------

/// White space in a secret file: tabs, line feeds, form feeds, carriage returns and spaces.
pub open spec fn is_blank(b: u8) -> bool {
    b == 9 || b == 10 || b == 12 || b == 13 || b == 32
}

/// The secret is what a file holds without the white space at both ends, and all of that.
pub proof fn law_the_secret_in_a_file(contents: Seq<u8>) -> (r: (int, int))
    ensures
        0 <= r.0 <= r.1 <= contents.len(),
        token::secret_in(contents) == contents.subrange(r.0, r.1),
        forall|i: int|
            0 <= i < r.0 || r.1 <= i < contents.len() ==> is_blank(#[trigger] contents[i]),
        r.0 < r.1 ==> !is_blank(contents[r.0]) && !is_blank(contents[r.1 - 1]),
{
    let i = lemma_blank_start(contents);
    let t = token::ascii_trim_start(contents);
    let j = lemma_blank_end(t);
    assert(token::secret_in(contents) =~= contents.subrange(i, i + j));
    assert forall|k: int| 0 <= k < i || i + j <= k < contents.len() implies is_blank(
        #[trigger] contents[k],
    ) by {
        if i + j <= k {
            assert(contents[k] == t[k - i]);
        }
    }
    if j > 0 {
        assert(t[0] == contents[i]);
        assert(t[j - 1] == contents[i + j - 1]);
    }
    (i, i + j)
}

proof fn lemma_blank_start(s: Seq<u8>) -> (i: int)
    ensures
        0 <= i <= s.len(),
        token::ascii_trim_start(s) == s.skip(i),
        forall|k: int| 0 <= k < i ==> is_blank(#[trigger] s[k]),
        i < s.len() ==> !is_blank(s[i]),
    decreases s.len(),
{
    if s.len() > 0 && is_blank(s[0]) {
        let j = lemma_blank_start(s.skip(1));
        assert(s.skip(1).skip(j) =~= s.skip(j + 1));
        assert forall|k: int| 0 <= k < j + 1 implies is_blank(#[trigger] s[k]) by {
            if k > 0 {
                assert(s[k] == s.skip(1)[k - 1]);
            }
        }
        j + 1
    } else {
        assert(s.skip(0) =~= s);
        0
    }
}

proof fn lemma_blank_end(s: Seq<u8>) -> (j: int)
    ensures
        0 <= j <= s.len(),
        token::ascii_trim_end(s) == s.take(j),
        forall|k: int| j <= k < s.len() ==> is_blank(#[trigger] s[k]),
        j > 0 ==> !is_blank(s[j - 1]),
    decreases s.len(),
{
    if s.len() > 0 && is_blank(s.last()) {
        let j = lemma_blank_end(s.drop_last());
        assert(s.drop_last().take(j) =~= s.take(j));
        assert forall|k: int| j <= k < s.len() implies is_blank(#[trigger] s[k]) by {
            if k < s.len() - 1 {
                assert(s[k] == s.drop_last()[k]);
            }
        }
        j
    } else {
        assert(s.take(s.len() as int) =~= s);
        s.len() as int
    }
}

} // verus!
