//! What holds of the token service across its operations.
use crate::clock;
use crate::clock::Span;
use crate::codec;
use crate::crypto;
use crate::table;
use crate::text;
use crate::token;
use crate::token::{
    Claims, IssuedView, RefreshView, ServiceView, SpentView, StateView, TokenErrorView, MAX_RECORDS,
};
use vstd::prelude::*;

verus! {

/// A login issues an access token that names its user until it expires, and a refresh token that
/// is stored under its hash.
///
/// `signed_claims` of the issued token is what `login_at` promises of it.
pub proof fn law_login_issues_a_verifiable_access_token(
    s: ServiceView,
    user: Seq<char>,
    now: u128,
    wall: u64,
    family: u64,
    fresh: Seq<char>,
    later_wall: u64,
)
    requires
        !s.state.revoked.contains_key(family),
        s.login(user, now, wall, Some(family), Some(fresh)).1 is Ok,
        token::signed_claims(
            s.secret,
            s.login(user, now, wall, Some(family), Some(fresh)).1->Ok_0.access_token,
        ) == Some(
            Claims { family, expires: token::wall_after(wall, s.access_ttl.spec_secs()), user },
        ),
    ensures
        ({
            let (state, r) = s.login(user, now, wall, Some(family), Some(fresh));
            let issued = r->Ok_0;
            &&& s.with(state).verify_access(issued.access_token, later_wall) == (if later_wall
                < token::wall_after(wall, s.access_ttl.spec_secs()) {
                Some(user)
            } else {
                None
            })
            &&& issued.access_expires_in == s.access_ttl.spec_secs()
            &&& issued.refresh_token == fresh
            &&& s.with(state).holder(fresh) == Some(user)
            &&& s.with(state).family_of(fresh) == Some(family)
        }),
{
}

/// A login is cut off after the longest lifetime of a family: no refresh moves the deadline, and
/// no refresh token outlives it.
pub proof fn law_refreshing_never_extends_a_family(
    s: ServiceView,
    token: Seq<char>,
    known: bool,
    now: u128,
    wall: u64,
    fresh: Seq<char>,
)
    requires
        s.refresh(token, known, now, wall, Some(fresh)).1 is Ok,
    ensures
        ({
            let (state, r) = s.refresh(token, known, now, wall, Some(fresh));
            let before = s.state.refresh[token::token_hash(token)];
            let after = state.refresh[token::token_hash(fresh)];
            &&& state.refresh.contains_key(token::token_hash(fresh))
            &&& after.family_deadline == before.family_deadline
            &&& after.expires <= before.family_deadline
            &&& now < before.family_deadline
        }),
{
    lemma_room(s.state, now);
}

/// A login's refresh token lives no longer than a family may.
pub proof fn law_login_sets_the_deadline(
    s: ServiceView,
    user: Seq<char>,
    now: u128,
    wall: u64,
    family: u64,
    fresh: Seq<char>,
)
    requires
        s.login(user, now, wall, Some(family), Some(fresh)).1 is Ok,
    ensures
        ({
            let state = s.login(user, now, wall, Some(family), Some(fresh)).0;
            let record = state.refresh[token::token_hash(fresh)];
            &&& state.refresh.contains_key(token::token_hash(fresh))
            &&& record.family_deadline == clock::later(now, token::max_family_lifetime())
            &&& record.expires == token::earlier(clock::later(now, s.refresh_ttl), record.family_deadline)
        }),
{
}

/// What sweeping and making room leave of a state: the records that have not expired, as they
/// were.
proof fn lemma_room(s: StateView, now: u128)
    ensures
        ({
            let t = s.swept(now).room_made(now);
            &&& forall|h: Seq<u8>| #[trigger]
                t.refresh.contains_key(h) ==> s.refresh.contains_key(h) && t.refresh[h]
                    == s.refresh[h]
            &&& forall|h: Seq<u8>|
                #![trigger t.refresh.contains_key(h)]
                #![trigger s.refresh.contains_key(h)]
                s.refresh.contains_key(h) && token::live(s.refresh[h], now) ==> t.refresh.contains_key(h)
            &&& forall|h: Seq<u8>| #[trigger]
                t.spent.contains_key(h) ==> s.spent.contains_key(h) && t.spent[h] == s.spent[h]
            &&& forall|h: Seq<u8>|
                #![trigger t.spent.contains_key(h)]
                #![trigger s.spent.contains_key(h)]
                s.spent.contains_key(h) && now < s.spent[h].expires ==> t.spent.contains_key(h)
            &&& forall|f: u64| #[trigger]
                t.revoked.contains_key(f) ==> s.revoked.contains_key(f) && t.revoked[f]
                    == s.revoked[f]
            &&& forall|f: u64|
                #![trigger t.revoked.contains_key(f)]
                #![trigger s.revoked.contains_key(f)]
                s.revoked.contains_key(f) && now < s.revoked[f] ==> t.revoked.contains_key(f)
        }),
{
}

/// Every refresh rotates the token: the presented one is retired, and the new one continues its
/// family, for its user.
pub proof fn law_refresh_rotates_the_refresh_token(
    s: ServiceView,
    token: Seq<char>,
    known: bool,
    now: u128,
    wall: u64,
    fresh: Seq<char>,
)
    requires
        s.refresh(token, known, now, wall, Some(fresh)).1 is Ok,
        token::token_hash(token) != token::token_hash(fresh),
    ensures
        ({
            let (state, r) = s.refresh(token, known, now, wall, Some(fresh));
            let record = s.state.refresh[token::token_hash(token)];
            &&& s.holder(token) == Some(r->Ok_0.0)
            &&& r->Ok_0.1.refresh_token == fresh
            &&& s.with(state).holder(token) is None
            &&& state.spent.contains_key(token::token_hash(token))
            &&& state.spent[token::token_hash(token)] == SpentView {
                family: record.family,
                user: record.user,
                expires: record.expires,
            }
            &&& s.with(state).holder(fresh) == Some(r->Ok_0.0)
            &&& s.with(state).family_of(fresh) == Some(record.family)
        }),
{
    lemma_room(s.state, now);
}

/// A refresh token works exactly while it is stored and live, its user exists and the store has
/// room.
pub proof fn law_refresh_succeeds_exactly_when_the_token_is_live(
    s: ServiceView,
    token: Seq<char>,
    known: bool,
    now: u128,
    wall: u64,
    fresh: Seq<char>,
)
    ensures
        s.refresh(token, known, now, wall, Some(fresh)).1 is Ok <==> {
            &&& !s.state.swept(now).room_made(now).is_full()
            &&& s.state.refresh.contains_key(token::token_hash(token))
            &&& token::live(s.state.refresh[token::token_hash(token)], now)
            &&& known
        },
{
    lemma_room(s.state, now);
}

/// Presenting a refresh token that was already rotated revokes its whole family: it is answered
/// with the user, no refresh token of the family can be exchanged any more, and none of its
/// access tokens is accepted.
pub proof fn law_reusing_a_rotated_refresh_token_revokes_the_whole_family(
    s: ServiceView,
    token: Seq<char>,
    known: bool,
    now: u128,
    wall: u64,
    fresh: Option<Seq<char>>,
    other: Seq<char>,
    access_token: Seq<char>,
    later_known: bool,
    later_now: u128,
    later_wall: u64,
    later_fresh: Option<Seq<char>>,
)
    requires
        s.state.spent.contains_key(token::token_hash(token)),
        !s.state.refresh.contains_key(token::token_hash(token)),
        now < s.state.spent[token::token_hash(token)].expires,
        !s.state.swept(now).room_made(now).is_full(),
        s.state.refresh.contains_key(token::token_hash(other)) ==> s.state.refresh[token::token_hash(other)].family
            == s.state.spent[token::token_hash(token)].family,
        token::signed_claims(s.secret, access_token) matches Some(c) ==> c.family
            == s.state.spent[token::token_hash(token)].family,
    ensures
        ({
            let spent = s.state.spent[token::token_hash(token)];
            let (state, r) = s.refresh(token, known, now, wall, fresh);
            &&& r == Err::<(Seq<char>, IssuedView), TokenErrorView>(
                TokenErrorView::Reused { user: spent.user },
            )
            &&& s.with(state).refresh(
                other,
                later_known,
                later_now,
                later_wall,
                later_fresh,
            ).1 is Err
            &&& s.with(state).verify_access(access_token, later_wall) is None
        }),
{
    lemma_room(s.state, now);
    let state = s.refresh(token, known, now, wall, fresh).0;
    lemma_room(state, later_now);
    assert(!state.refresh.contains_key(token::token_hash(other)));
}

/// A rotated token that is presented again before it would have expired is found out: after a
/// login and a refresh, the token of the login is answered with `Reused`; the token that the
/// refresh gave is then void, and neither of the two access tokens is accepted.
///
/// The tokens that are drawn have to differ by their hashes, from each other and from rotated ones;
/// and that the issued access tokens carry their claims is what `login_at` and `refresh_at` promise
/// of them.
pub proof fn law_a_rotated_token_is_found_out(
    s: ServiceView,
    user: Seq<char>,
    family: u64,
    first: Seq<char>,
    second: Seq<char>,
    login_now: u128,
    login_wall: u64,
    refresh_now: u128,
    refresh_wall: u64,
    known: bool,
    again: u128,
    later_now: u128,
    wall: u64,
    fresh: Option<Seq<char>>,
)
    requires
        token::token_hash(first) != token::token_hash(second),
        !s.state.spent.contains_key(token::token_hash(second)),
        s.login(user, login_now, login_wall, Some(family), Some(first)).1 is Ok,
        ({
            let (state, i) = s.login(user, login_now, login_wall, Some(family), Some(first));
            let s1 = s.with(state);
            let (state, n) = s1.refresh(first, true, refresh_now, refresh_wall, Some(second));
            let s2 = s1.with(state);
            let s3 = s2.with(s2.refresh(first, known, again, wall, fresh).0);
            &&& n is Ok
            &&& again < s1.state.refresh[token::token_hash(first)].expires
            &&& !s2.state.swept(again).room_made(again).is_full()
            &&& !s3.state.swept(later_now).room_made(later_now).is_full()
            &&& token::signed_claims(s.secret, i->Ok_0.access_token) matches Some(c) && c.family
                == family
            &&& token::signed_claims(s.secret, n->Ok_0.1.access_token) matches Some(c) && c.family
                == family
        }),
    ensures
        first != second,
        ({
            let (state, i) = s.login(user, login_now, login_wall, Some(family), Some(first));
            let s1 = s.with(state);
            let (state, n) = s1.refresh(first, true, refresh_now, refresh_wall, Some(second));
            let s2 = s1.with(state);
            let (state, reused) = s2.refresh(first, known, again, wall, fresh);
            let s3 = s2.with(state);
            &&& n->Ok_0.0 == user
            &&& i->Ok_0.refresh_token == first
            &&& n->Ok_0.1.refresh_token == second
            &&& reused == Err::<(Seq<char>, IssuedView), TokenErrorView>(
                TokenErrorView::Reused { user },
            )
            &&& s3.refresh(second, known, later_now, wall, fresh).1 == Err::<
                (Seq<char>, IssuedView),
                TokenErrorView,
            >(TokenErrorView::Invalid)
            &&& s3.verify_access(i->Ok_0.access_token, wall) is None
            &&& s3.verify_access(n->Ok_0.1.access_token, wall) is None
        }),
{
    let s1 = s.with(s.login(user, login_now, login_wall, Some(family), Some(first)).0);
    assert(s1.state.refresh[token::token_hash(first)].user == user);
    assert(s1.state.refresh[token::token_hash(first)].family == family);
    assert(!s1.state.spent.contains_key(token::token_hash(second)));
    law_refresh_rotates_the_refresh_token(s1, first, true, refresh_now, refresh_wall, second);
    lemma_room(s1.state, refresh_now);
    let s2 = s1.with(s1.refresh(first, true, refresh_now, refresh_wall, Some(second)).0);
    assert(!s2.state.spent.contains_key(token::token_hash(second)));
    lemma_room(s2.state, again);
    let s3 = s2.with(s2.refresh(first, known, again, wall, fresh).0);
    assert(!s3.state.spent.contains_key(token::token_hash(second)));
    assert(s3.state.revoked.contains_key(family));
    lemma_room(s3.state, later_now);
    assert(!s3.state.refresh.contains_key(token::token_hash(second)));
}

/// Logging out kills the refresh token and the access tokens of its family.
pub proof fn law_revoke_kills_refresh_and_access_tokens(
    s: ServiceView,
    token: Seq<char>,
    now: u128,
    access_token: Seq<char>,
    later_known: bool,
    later_now: u128,
    later_wall: u64,
    later_fresh: Option<Seq<char>>,
)
    requires
        s.family_of(token) is Some,
        token::signed_claims(s.secret, access_token) matches Some(c) ==> s.family_of(token) == Some(
            c.family,
        ),
    ensures
        ({
            let t = s.with(s.revoke(token, now));
            &&& t.refresh(token, later_known, later_now, later_wall, later_fresh).1 is Err
            &&& t.verify_access(access_token, later_wall) is None
        }),
{
    let t = s.with(s.revoke(token, now));
    lemma_room(t.state, later_now);
    assert(!t.state.refresh.contains_key(token::token_hash(token)));
}

/// Logging out with a token that was never issued changes nothing.
pub proof fn law_revoking_an_unknown_token_changes_nothing(
    s: ServiceView,
    token: Seq<char>,
    now: u128,
)
    requires
        s.family_of(token) is None,
    ensures
        s.with(s.revoke(token, now)) == s,
{
}

/// Families are independent: revoking one leaves the refresh tokens and the access tokens of
/// another as they were, also where they are of the same user. What could be exchanged is
/// exchanged as before.
pub proof fn law_families_are_independent(
    s: ServiceView,
    token: Seq<char>,
    now: u128,
    other: Seq<char>,
    access_token: Seq<char>,
    known: bool,
    later_now: u128,
    wall: u64,
    fresh: Option<Seq<char>>,
)
    requires
        s.state.refresh.dom().finite(),
        s.state.spent.dom().finite(),
        s.state.refresh.contains_key(token::token_hash(other)),
        s.family_of(token) != s.family_of(other),
        token::signed_claims(s.secret, access_token) matches Some(c) ==> s.family_of(token) != Some(
            c.family,
        ),
    ensures
        ({
            let t = s.with(s.revoke(token, now));
            &&& t.state.refresh.contains_key(token::token_hash(other))
            &&& t.state.refresh[token::token_hash(other)] == s.state.refresh[token::token_hash(other)]
            &&& t.verify_access(access_token, wall) == s.verify_access(access_token, wall)
            &&& s.refresh(other, known, later_now, wall, fresh).1 is Ok ==> t.refresh(
                other,
                known,
                later_now,
                wall,
                fresh,
            ).1 == s.refresh(other, known, later_now, wall, fresh).1
        }),
{
    let t = s.with(s.revoke(token, now));
    lemma_room(s.state, later_now);
    lemma_room(t.state, later_now);
    if !s.state.swept(later_now).room_made(later_now).is_full() {
        lemma_room_smaller(s.state, t.state, later_now);
    }
}

/// A state with fewer refresh tokens has room where one with more has.
proof fn lemma_room_smaller(s: StateView, t: StateView, now: u128)
    requires
        s.refresh.dom().finite(),
        s.spent.dom().finite(),
        t.spent == s.spent,
        t.next_sweep == s.next_sweep,
        forall|h: Seq<u8>| #[trigger]
            t.refresh.contains_key(h) ==> s.refresh.contains_key(h) && t.refresh[h] == s.refresh[h],
        !s.swept(now).room_made(now).is_full(),
    ensures
        !t.swept(now).room_made(now).is_full(),
{
    let usable = |r: RefreshView| token::live(r, now);
    table::lemma_kept(s.refresh, usable);
    table::lemma_kept(s.spent, |r: SpentView| now < r.expires);
    vstd::set_lib::lemma_len_subset(t.refresh.dom(), s.refresh.dom());
    let x = table::kept(s.refresh, usable);
    let y = table::kept(t.refresh, usable);
    assert forall|h: Seq<u8>| #[trigger] y.dom().contains(h) implies x.dom().contains(h) by {
        assert(t.refresh.contains_key(h));
    }
    vstd::set_lib::lemma_len_subset(y.dom(), x.dom());
    // Sweeping twice at the same time keeps what sweeping once does.
    assert(s.force_swept(now).force_swept(now).refresh =~= s.force_swept(now).refresh);
    assert(s.force_swept(now).force_swept(now).spent =~= s.force_swept(now).spent);
    assert(t.force_swept(now).force_swept(now).refresh =~= t.force_swept(now).refresh);
    assert(t.force_swept(now).force_swept(now).spent =~= t.force_swept(now).spent);
}

// ---------------------------------------------------------------------------------------------
// Over any later operations
// ---------------------------------------------------------------------------------------------

/// An operation on the service, with what the clocks show and what is drawn for it.
pub enum Operation {
    Login { user: Seq<char>, now: u128, wall: u64, family: Option<u64>, fresh: Option<Seq<char>> },
    Refresh { token: Seq<char>, known: bool, now: u128, wall: u64, fresh: Option<Seq<char>> },
    Revoke { token: Seq<char>, now: u128 },
}

impl Operation {
    /// When it is done.
    pub open spec fn now(self) -> u128 {
        match self {
            Operation::Login { now, .. } => now,
            Operation::Refresh { now, .. } => now,
            Operation::Revoke { now, .. } => now,
        }
    }

    /// It is a login that draws the family.
    pub open spec fn starts(self, family: u64) -> bool {
        self matches Operation::Login { family: Some(f), .. } && f == family
    }

    /// It draws a refresh token with this hash.
    pub open spec fn draws(self, hash: Seq<u8>) -> bool {
        match self {
            Operation::Login { fresh: Some(token), .. } => token::token_hash(token) == hash,
            Operation::Refresh { fresh: Some(token), .. } => token::token_hash(token) == hash,
            _ => false,
        }
    }
}

impl ServiceView {
    /// The service after an operation.
    pub open spec fn after(self, op: Operation) -> ServiceView {
        match op {
            Operation::Login { user, now, wall, family, fresh } => self.with(
                self.login(user, now, wall, family, fresh).0,
            ),
            Operation::Refresh { token, known, now, wall, fresh } => self.with(
                self.refresh(token, known, now, wall, fresh).0,
            ),
            Operation::Revoke { token, now } => self.with(self.revoke(token, now)),
        }
    }

    /// The service after operations, one after another.
    pub open spec fn run(self, ops: Seq<Operation>) -> ServiceView
        decreases ops.len(),
    {
        if ops.len() == 0 {
            self
        } else {
            self.run(ops.drop_last()).after(ops.last())
        }
    }
}

/// No refresh token of the family is stored.
pub open spec fn is_gone(s: StateView, family: u64) -> bool {
    forall|h: Seq<u8>| #[trigger] s.refresh.contains_key(h) ==> s.refresh[h].family != family
}

/// None of the operations draws the family.
pub open spec fn none_starts(ops: Seq<Operation>, family: u64) -> bool {
    forall|i: int| 0 <= i < ops.len() ==> !(#[trigger] ops[i]).starts(family)
}

/// None of the operations draws a refresh token with this hash.
pub open spec fn none_draws(ops: Seq<Operation>, hash: Seq<u8>) -> bool {
    forall|i: int| 0 <= i < ops.len() ==> !(#[trigger] ops[i]).draws(hash)
}

/// The operations are all done from `start` on and before `end`.
pub open spec fn all_within(ops: Seq<Operation>, start: u128, end: u128) -> bool {
    forall|i: int| 0 <= i < ops.len() ==> start <= (#[trigger] ops[i]).now() < end
}

/// What one operation keeps.
proof fn lemma_after(s: ServiceView, op: Operation, family: u64, hash: Seq<u8>, start: u128)
    ensures
        s.after(op).secret == s.secret,
        s.after(op).access_ttl == s.access_ttl,
        is_gone(s.state, family) && !op.starts(family) ==> is_gone(s.after(op).state, family),
        !s.state.refresh.contains_key(hash) && !op.draws(hash)
            ==> !s.after(op).state.refresh.contains_key(hash),
        ({
            let end = clock::later(start, s.access_ttl);
            s.state.revoked.contains_key(family) && s.state.revoked[family] >= end && start
                <= op.now() < end ==> s.after(op).state.revoked.contains_key(family)
                && s.after(op).state.revoked[family] >= end
        }),
{
    lemma_room(s.state, op.now());
}

/// What operations keep, one after another.
proof fn lemma_run(s: ServiceView, ops: Seq<Operation>, family: u64, hash: Seq<u8>, start: u128)
    ensures
        s.run(ops).secret == s.secret,
        s.run(ops).access_ttl == s.access_ttl,
        is_gone(s.state, family) && none_starts(ops, family) ==> is_gone(s.run(ops).state, family),
        !s.state.refresh.contains_key(hash) && none_draws(ops, hash)
            ==> !s.run(ops).state.refresh.contains_key(hash),
        ({
            let end = clock::later(start, s.access_ttl);
            s.state.revoked.contains_key(family) && s.state.revoked[family] >= end && all_within(
                ops,
                start,
                end,
            ) ==> s.run(ops).state.revoked.contains_key(family)
                && s.run(ops).state.revoked[family] >= end
        }),
    decreases ops.len(),
{
    if ops.len() > 0 {
        let front = ops.drop_last();
        lemma_run(s, front, family, hash, start);
        lemma_after(s.run(front), ops.last(), family, hash, start);
        assert forall|i: int| 0 <= i < front.len() implies #[trigger] front[i] == ops[i] by {}
    }
}

/// A revoked family stays revoked, whatever logins, refreshes and logouts follow, as long as no
/// login draws it again: none of its refresh tokens is stored, so nothing that is exchanged is of
/// it, and no refresh token of it that was known can be exchanged, unless the same token is drawn
/// again. And until the last of its access tokens has expired, none of them is accepted.
pub proof fn law_a_revoked_family_stays_revoked(
    s: ServiceView,
    family: u64,
    now: u128,
    ops: Seq<Operation>,
    token: Seq<char>,
    access_token: Seq<char>,
    known: bool,
    later_now: u128,
    wall: u64,
    fresh: Option<Seq<char>>,
)
    requires
        none_starts(ops, family),
    ensures
        ({
            let revoked = s.with(s.state.family_revoked(family, now, s.access_ttl));
            let t = revoked.run(ops);
            let exchanged = t.refresh(token, known, later_now, wall, fresh).1 is Ok;
            &&& is_gone(t.state, family)
            &&& exchanged ==> t.state.refresh[token::token_hash(token)].family != family
            &&& (s.state.refresh.contains_key(token::token_hash(token))
                ==> s.state.refresh[token::token_hash(token)].family == family) && none_draws(
                ops,
                token::token_hash(token),
            ) ==> !exchanged
            &&& (token::signed_claims(s.secret, access_token) matches Some(c) ==> c.family
                == family) && all_within(ops, now, clock::later(now, s.access_ttl))
                ==> t.verify_access(access_token, wall) is None
        }),
{
    let revoked = s.with(s.state.family_revoked(family, now, s.access_ttl));
    let hash = token::token_hash(token);
    assert(is_gone(revoked.state, family));
    assert(revoked.state.revoked.contains_key(family));
    assert(revoked.state.revoked[family] >= clock::later(now, revoked.access_ttl));
    lemma_run(revoked, ops, family, hash, now);
    lemma_room(revoked.run(ops).state, later_now);
}

/// Logging out ends a login for good, whatever follows: from then on its refresh token is not
/// exchanged, nor is any other of its family, and its access tokens are not accepted.
pub proof fn law_logging_out_ends_a_login_for_good(
    s: ServiceView,
    refresh_token: Seq<char>,
    now: u128,
    ops: Seq<Operation>,
    token: Seq<char>,
    access_token: Seq<char>,
    known: bool,
    later_now: u128,
    wall: u64,
    fresh: Option<Seq<char>>,
)
    requires
        s.family_of(refresh_token) is Some,
        none_starts(ops, s.family_of(refresh_token)->0),
        none_draws(ops, token::token_hash(token)),
        s.family_of(token) == s.family_of(refresh_token),
        token::signed_claims(s.secret, access_token) matches Some(c) ==> s.family_of(refresh_token)
            == Some(c.family),
    ensures
        ({
            let t = s.with(s.revoke(refresh_token, now)).run(ops);
            &&& !(t.refresh(token, known, later_now, wall, fresh).1 is Ok)
            &&& is_gone(t.state, s.family_of(refresh_token)->0)
            &&& all_within(ops, now, clock::later(now, s.access_ttl)) ==> t.verify_access(
                access_token,
                wall,
            ) is None
        }),
{
    law_a_revoked_family_stays_revoked(
        s,
        s.family_of(refresh_token)->0,
        now,
        ops,
        token,
        access_token,
        known,
        later_now,
        wall,
        fresh,
    );
}

/// Presenting a rotated refresh token ends its login for good in the same way.
pub proof fn law_reuse_ends_a_login_for_good(
    s: ServiceView,
    reused: Seq<char>,
    reused_known: bool,
    now: u128,
    reused_wall: u64,
    reused_fresh: Option<Seq<char>>,
    ops: Seq<Operation>,
    token: Seq<char>,
    access_token: Seq<char>,
    known: bool,
    later_now: u128,
    wall: u64,
    fresh: Option<Seq<char>>,
)
    requires
        s.refresh(reused, reused_known, now, reused_wall, reused_fresh).1 matches Err(e) && e
            is Reused,
        none_starts(ops, s.state.spent[token::token_hash(reused)].family),
        none_draws(ops, token::token_hash(token)),
        s.family_of(token) == Some(s.state.spent[token::token_hash(reused)].family),
        token::signed_claims(s.secret, access_token) matches Some(c) ==> c.family
            == s.state.spent[token::token_hash(reused)].family,
    ensures
        ({
            let state = s.refresh(reused, reused_known, now, reused_wall, reused_fresh).0;
            let t = s.with(state).run(ops);
            &&& !(t.refresh(token, known, later_now, wall, fresh).1 is Ok)
            &&& is_gone(t.state, s.state.spent[token::token_hash(reused)].family)
            &&& all_within(ops, now, clock::later(now, s.access_ttl)) ==> t.verify_access(
                access_token,
                wall,
            ) is None
        }),
{
    lemma_room(s.state, now);
    let made = s.with(s.state.swept(now).room_made(now));
    let family = s.state.spent[token::token_hash(reused)].family;
    let state = s.refresh(reused, reused_known, now, reused_wall, reused_fresh).0;
    assert(s.with(state) == made.with(made.state.family_revoked(family, now, s.access_ttl)));
    law_a_revoked_family_stays_revoked(
        made,
        family,
        now,
        ops,
        token,
        access_token,
        known,
        later_now,
        wall,
        fresh,
    );
}

/// A revoked family stays revoked at least as long as its access tokens may live, whatever is
/// swept.
pub proof fn law_a_revocation_outlives_the_access_tokens(
    s: StateView,
    family: u64,
    now: u128,
    access_ttl: Span,
    later_now: u128,
)
    requires
        later_now < clock::later(now, access_ttl),
    ensures
        s.family_revoked(family, now, access_ttl).swept(later_now).room_made(
            later_now,
        ).revoked.contains_key(family),
{
    lemma_room(s.family_revoked(family, now, access_ttl), later_now);
}

/// A full store never costs a client its refresh token: it is answered with `Full`, nobody's
/// existence is asked for, and all that has not expired is kept as it was, the presented token too.
pub proof fn law_a_full_store_never_consumes_the_token(
    s: ServiceView,
    token: Seq<char>,
    known: bool,
    now: u128,
    wall: u64,
    fresh: Option<Seq<char>>,
)
    requires
        s.state.swept(now).room_made(now).is_full(),
    ensures
        ({
            let (state, r) = s.refresh(token, known, now, wall, fresh);
            &&& r == Err::<(Seq<char>, IssuedView), TokenErrorView>(TokenErrorView::Full)
            &&& s.asked(token, now) is None
            &&& forall|h: Seq<u8>|
                s.state.refresh.contains_key(h) && token::live(s.state.refresh[h], now)
                    ==> #[trigger] state.refresh.contains_key(h) && state.refresh[h]
                    == s.state.refresh[h]
            &&& forall|h: Seq<u8>|
                s.state.spent.contains_key(h) && now < s.state.spent[h].expires
                    ==> #[trigger] state.spent.contains_key(h) && state.spent[h] == s.state.spent[h]
        }),
{
    lemma_room(s.state, now);
}

/// The store is bounded: whatever a login or a refresh answers, no more records are kept than
/// before, or than the bound.
pub proof fn law_the_store_is_bounded(
    s: ServiceView,
    user: Seq<char>,
    token: Seq<char>,
    known: bool,
    now: u128,
    wall: u64,
    family: Option<u64>,
    fresh: Option<Seq<char>>,
)
    requires
        s.state.refresh.dom().finite(),
        s.state.spent.dom().finite(),
        s.state.records() <= MAX_RECORDS,
    ensures
        s.login(user, now, wall, family, fresh).0.records() <= MAX_RECORDS,
        s.refresh(token, known, now, wall, fresh).0.records() <= MAX_RECORDS,
        s.revoke(token, now).records() <= MAX_RECORDS,
{
    lemma_bounded(s.state, now);
    let swept = s.state.swept(now);
    lemma_bounded(swept, now);
    let state = swept.room_made(now);
    let hash = token::token_hash(token);
    if state.spent.contains_key(hash) {
        table::lemma_kept(
            state.refresh,
            |r: RefreshView| r.family != state.spent[hash].family,
        );
    }
    if let Some(f) = s.family_of(token) {
        table::lemma_kept(s.state.refresh, |r: RefreshView| r.family != f);
    }
}

/// Sweeping adds no records.
proof fn lemma_bounded(s: StateView, now: u128)
    requires
        s.refresh.dom().finite(),
        s.spent.dom().finite(),
    ensures
        s.force_swept(now).refresh.dom().finite(),
        s.force_swept(now).spent.dom().finite(),
        s.force_swept(now).records() <= s.records(),
{
    table::lemma_kept(s.refresh, |r: RefreshView| token::live(r, now));
    table::lemma_kept(s.spent, |r: SpentView| now < r.expires);
}

/// Access tokens are stateless: a service that starts anew with the same secret accepts them.
pub proof fn law_access_tokens_survive_a_restart_with_the_same_secret(
    before: ServiceView,
    after: ServiceView,
    token: Seq<char>,
    wall: u64,
)
    requires
        before.secret == after.secret,
        after.state.revoked == Map::<u64, u128>::empty(),
        before.verify_access(token, wall) is Some,
    ensures
        after.verify_access(token, wall) == before.verify_access(token, wall),
{
}

/// A service with another secret refuses them.
///
/// Secrets count as other where they sign the payload otherwise: `HMAC` takes a short secret and
/// the same one with a zero byte behind it for one.
pub proof fn law_access_tokens_are_refused_under_another_secret(
    before: ServiceView,
    after: ServiceView,
    token: Seq<char>,
    c: Claims,
    wall: u64,
)
    requires
        token::signed_claims(before.secret, token) == Some(c),
        crypto::hmac_sha256(after.secret, token::payload(c)) != crypto::hmac_sha256(
            before.secret,
            token::payload(c),
        ),
    ensures
        token::signed_claims(after.secret, token) is None,
        after.verify_access(token, wall) is None,
{
    let (body, _) = text::split_once(token, '.')->0;
    token::lemma_payload_back(codec::base64url_bytes(body)->0);
}

/// What a login issues, read by any service: the access token names the user, whatever characters
/// the name has, until it expires, under the service's own secret, also after a restart; under
/// another secret it is refused; and the refresh token is never taken for an access token.
///
/// That the issued access token carries its claims is what `login_at` promises of it.
pub proof fn law_issued_tokens_are_read_under_their_own_secret(
    s: ServiceView,
    user: Seq<char>,
    now: u128,
    wall: u64,
    family: u64,
    fresh: Seq<char>,
    restarted: ServiceView,
    stranger: ServiceView,
    later_wall: u64,
)
    requires
        !s.state.revoked.contains_key(family),
        token::is_opaque(fresh),
        s.login(user, now, wall, Some(family), Some(fresh)).1 is Ok,
        later_wall < token::wall_after(wall, s.access_ttl.spec_secs()),
        restarted.secret == s.secret,
        restarted.state.revoked == Map::<u64, u128>::empty(),
        ({
            let c = Claims {
                family,
                expires: token::wall_after(wall, s.access_ttl.spec_secs()),
                user,
            };
            let issued = s.login(user, now, wall, Some(family), Some(fresh)).1->Ok_0;
            &&& token::signed_claims(s.secret, issued.access_token) == Some(c)
            &&& crypto::hmac_sha256(stranger.secret, token::payload(c)) != crypto::hmac_sha256(
                s.secret,
                token::payload(c),
            )
        }),
    ensures
        ({
            let (state, r) = s.login(user, now, wall, Some(family), Some(fresh));
            let issued = r->Ok_0;
            &&& s.with(state).verify_access(issued.access_token, later_wall) == Some(user)
            &&& restarted.verify_access(issued.access_token, later_wall) == Some(user)
            &&& stranger.verify_access(issued.access_token, later_wall) is None
            &&& s.with(state).verify_access(issued.refresh_token, later_wall) is None
        }),
{
    let (state, r) = s.login(user, now, wall, Some(family), Some(fresh));
    let c = Claims { family, expires: token::wall_after(wall, s.access_ttl.spec_secs()), user };
    law_access_tokens_are_refused_under_another_secret(
        s,
        stranger,
        r->Ok_0.access_token,
        c,
        later_wall,
    );
    law_a_refresh_token_is_no_access_token(s.with(state), fresh, later_wall);
}

/// An access token that is not revoked is accepted until it expires, and not from then on.
pub proof fn law_access_tokens_are_accepted_until_they_expire(
    s: ServiceView,
    token: Seq<char>,
    c: Claims,
    wall: u64,
)
    requires
        token::signed_claims(s.secret, token) == Some(c),
        !s.state.revoked.contains_key(c.family),
    ensures
        s.verify_access(token, wall) == (if wall < c.expires {
            Some(c.user)
        } else {
            None
        }),
{
}

/// A refresh token is not an access token.
pub proof fn law_a_refresh_token_is_no_access_token(s: ServiceView, token: Seq<char>, wall: u64)
    requires
        token::is_opaque(token),
    ensures
        s.verify_access(token, wall) is None,
{
    text::lemma_first(token, '.');
    if text::first(token, '.') < token.len() {
        assert(codec::is_url_safe(token[text::first(token, '.')]));
    }
}

} // verus!
