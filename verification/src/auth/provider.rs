//! OAuth2 flow bookkeeping: errors, tokens and the pending login flows.

use vstd::prelude::*;
use crate::span::{Span, WallTime, elapsed_between, max_nanos};
use crate::text::opt_view;
use crate::auth::config::OAuth2Config;
use oauth2::basic::BasicClient;
use oauth2::{AuthUrl, ClientId, CsrfToken, PkceCodeChallenge, RedirectUrl, Scope};

verus! {

/// What can go wrong in the OAuth2 flow.
#[derive(Clone, Copy, Debug, PartialEq, Eq, Structural)]
pub enum OauthError {
    InvalidState,
    TokenExchangeFailed,
    MissingRefreshToken,
    TokenRefreshFailed,
}

impl OauthError {
    /// The text the error is shown with.
    pub open spec fn message_text(self) -> Seq<char> {
        match self {
            OauthError::InvalidState => "Invalid state parameter"@,
            OauthError::TokenExchangeFailed => "Failed to exchange authorization code for access token"@,
            OauthError::MissingRefreshToken => "No refresh token available"@,
            OauthError::TokenRefreshFailed => "Failed to refresh access token"@,
        }
    }

    /// The text the error is shown with (its `Display`).
    pub fn message(&self) -> (r: String)
        ensures
            r@ == self.message_text(),
    {
        match self {
            OauthError::InvalidState => String::from_str("Invalid state parameter"),
            OauthError::TokenExchangeFailed => String::from_str(
                "Failed to exchange authorization code for access token",
            ),
            OauthError::MissingRefreshToken => String::from_str("No refresh token available"),
            OauthError::TokenRefreshFailed => String::from_str("Failed to refresh access token"),
        }
    }
}

/// An access token with what is known of its lifetime. `fetched_at` is the
/// wall-clock time it was obtained.
pub struct Token {
    pub access_token: String,
    pub refresh_token: Option<String>,
    pub expires_in: Option<Span>,
    pub fetched_at: WallTime,
}

impl Token {
    /// How old the token is at wall-clock time `now`: the time from
    /// `fetched_at` to `now`. Where there is no such length of time (the
    /// token was fetched later than `now`), `SystemTime::elapsed` fails and
    /// the age is `Duration::MAX`.
    pub open spec fn age_at(self, now: WallTime) -> int {
        match elapsed_between(self.fetched_at@, now@) {
            Some(d) => d,
            None => max_nanos(),
        }
    }

    /// The token is due for a refresh at `now`, given the refresh window.
    pub open spec fn refresh_due(self, now: WallTime, window: Span) -> bool {
        match self.expires_in {
            None => false,
            Some(e) => {
                let sum = self.age_at(now) + window.nanos;
                (if sum <= max_nanos() {
                    sum
                } else {
                    max_nanos()
                }) >= e.nanos
            },
        }
    }

    /// The token has expired at `now`. A token without a lifetime never does.
    pub open spec fn expired(self, now: WallTime) -> bool {
        match self.expires_in {
            None => false,
            Some(e) => self.age_at(now) >= e.nanos,
        }
    }

    /// The token's age at `now`.
    pub fn age_at_time(&self, now: WallTime) -> (r: Span)
        ensures
            r.wf(),
            r.nanos == self.age_at(now),
    {
        match now.since(&self.fetched_at) {
            Some(d) => d,
            None => Span::max(),
        }
    }

    /// Whether the token should be refreshed at `now`: its age plus the
    /// window reaches its lifetime.
    pub fn should_refresh_at(&self, now: WallTime, refresh_window: Span) -> (r: bool)
        requires
            refresh_window.wf(),
        ensures
            r == self.refresh_due(now, refresh_window),
    {
        match self.expires_in {
            None => false,
            Some(e) => {
                let elapsed = self.age_at_time(now).saturating_add(refresh_window);
                elapsed.nanos >= e.nanos
            },
        }
    }

    /// Whether the token has expired at `now`.
    pub fn is_expired_at(&self, now: WallTime) -> (r: bool)
        ensures
            r == self.expired(now),
    {
        match self.expires_in {
            None => false,
            Some(e) => self.age_at_time(now).nanos >= e.nanos,
        }
    }

    /// Whether the token should be refreshed now, by the wall clock.
    pub fn should_refresh(&self, refresh_window: Span) -> (r: bool)
        requires
            refresh_window.wf(),
        ensures
            exists|now: WallTime| r == self.refresh_due(now, refresh_window),
            self.expires_in is None ==> !r,
    {
        let now = crate::span::wall_clock_now();
        self.should_refresh_at(now, refresh_window)
    }

    /// Whether the token has expired now, by the wall clock.
    pub fn is_expired(&self) -> (r: bool)
        ensures
            exists|now: WallTime| r == self.expired(now),
            self.expires_in is None ==> !r,
    {
        let now = crate::span::wall_clock_now();
        self.is_expired_at(now)
    }

    /// The refresh token to ask for a new access token with.
    pub fn refresh_credential(&self) -> (r: Result<String, OauthError>)
        ensures
            match r {
                Ok(t) => self.refresh_token matches Some(rt) && t@ == rt@,
                Err(e) => self.refresh_token is None && e == OauthError::MissingRefreshToken,
            },
    {
        match &self.refresh_token {
            Some(t) => Ok(t.clone()),
            None => Err(OauthError::MissingRefreshToken),
        }
    }

    /// Takes in a refreshed token obtained at `now`: the access token and
    /// lifetime are replaced, the refresh token only when a new one came.
    pub fn apply_refresh(
        &mut self,
        access_token: String,
        refresh_token: Option<String>,
        expires_in: Option<Span>,
        now: WallTime,
    )
        ensures
            final(self).access_token@ == access_token@,
            final(self).expires_in == expires_in,
            final(self).fetched_at == now,
            opt_view(final(self).refresh_token) == match refresh_token {
                Some(t) => Some(t@),
                None => opt_view(old(self).refresh_token),
            },
    {
        self.fetched_at = now;
        self.expires_in = expires_in;
        self.access_token = access_token;
        if let Some(t) = refresh_token {
            self.refresh_token = Some(t);
        }
    }
}

/// An expired token is always due for a refresh, whatever the window.
pub proof fn lemma_expired_means_refresh_due(t: Token, now: WallTime, window: Span)
    requires
        t.expired(now),
    ensures
        t.refresh_due(now, window),
{
}

/// Once expired, a token stays expired as the clock moves on (as long as it
/// was not fetched in the future).
pub proof fn lemma_expiry_is_permanent(t: Token, now: WallTime, later: WallTime)
    requires
        t.fetched_at@ <= now@ <= later@,
        t.expired(now),
    ensures
        t.expired(later),
{
}

/// Right after a refresh at `now` the token is not expired at `now` if its
/// new lifetime is positive.
pub proof fn lemma_fresh_after_refresh(t: Token, now: WallTime)
    requires
        t.fetched_at == now,
        t.expires_in matches Some(e) && e.nanos > 0,
    ensures
        !t.expired(now),
{
}

/// A login flow that was started and waits for the provider's callback.
/// `created_at` is read off the provider's monotonic clock.
pub struct PendingFlow {
    pub verifier: String,
    pub created_at: Span,
    pub next: Option<String>,
}

/// What a pending flow holds: PKCE verifier, start time, where to go after.
pub open spec fn flow_view(f: PendingFlow) -> (Seq<char>, u128, Option<Seq<char>>) {
    (f.verifier@, f.created_at.nanos, opt_view(f.next))
}

/// How long a started login may wait for its callback: 15 minutes.
pub open spec fn flow_expiration_nanos() -> int {
    900000000000
}

/// A flow started at `created` is kept at `now`: less than the expiration
/// has passed, and not no time at all (`Instant::duration_since` saturates
/// at zero).
pub open spec fn flow_fresh(created: u128, now: Span) -> bool {
    let elapsed = if created <= now.nanos {
        now.nanos - created
    } else {
        0
    };
    elapsed < flow_expiration_nanos() && elapsed != 0
}

/// The map a list of (state, flow) pairs stands for.
pub open spec fn entries_map(e: Seq<(String, PendingFlow)>) -> Map<
    Seq<char>,
    (Seq<char>, u128, Option<Seq<char>>),
> {
    Map::new(
        |k: Seq<char>| exists|i: int| 0 <= i < e.len() && #[trigger] e[i].0@ == k,
        |k: Seq<char>| flow_view(e[choose|i: int| 0 <= i < e.len() && #[trigger] e[i].0@ == k].1),
    )
}

/// No state occurs twice.
pub open spec fn states_unique(e: Seq<(String, PendingFlow)>) -> bool {
    forall|i: int, j: int|
        0 <= i < e.len() && 0 <= j < e.len() && i != j ==> #[trigger] e[i].0@ != #[trigger] e[j].0@
}

proof fn lemma_entries_map_at(e: Seq<(String, PendingFlow)>, i: int)
    requires
        states_unique(e),
        0 <= i < e.len(),
    ensures
        entries_map(e).contains_key(e[i].0@),
        entries_map(e)[e[i].0@] == flow_view(e[i].1),
{
    let k = e[i].0@;
    assert(e[i].0@ == k);
    let j = choose|j: int| 0 <= j < e.len() && #[trigger] e[j].0@ == k;
    assert(i == j);
}

/// A started login can be completed once: right after it is recorded under
/// `state`, completing `state` hands back that flow and leaves the other
/// flows as they were; completing `state` again finds nothing.
pub proof fn lemma_state_single_use(
    flows: Map<Seq<char>, (Seq<char>, u128, Option<Seq<char>>)>,
    state: Seq<char>,
    flow: (Seq<char>, u128, Option<Seq<char>>),
)
    ensures
        flows.insert(state, flow).contains_key(state),
        flows.insert(state, flow)[state] == flow,
        flows.insert(state, flow).remove(state) == flows.remove(state),
        !flows.insert(state, flow).remove(state).contains_key(state),
{
    assert(flows.insert(state, flow).remove(state) =~= flows.remove(state));
}

/// The pending flows left by a cleanup at `now`: those fresh at `now`.
pub open spec fn flows_after_cleanup(
    flows: Map<Seq<char>, (Seq<char>, u128, Option<Seq<char>>)>,
    now: Span,
) -> Map<Seq<char>, (Seq<char>, u128, Option<Seq<char>>)> {
    Map::new(
        |k: Seq<char>| flows.contains_key(k) && flow_fresh(flows[k].1, now),
        |k: Seq<char>| flows[k],
    )
}

/// A cleanup at `now` drops a login that has waited 15 minutes or more, so
/// its callback is refused from then on; a login that has waited less (and
/// some time at all) is kept as it was.
pub proof fn lemma_cleanup_drops_stale_flows(
    flows: Map<Seq<char>, (Seq<char>, u128, Option<Seq<char>>)>,
    state: Seq<char>,
    now: Span,
)
    requires
        flows.contains_key(state),
        flows[state].1 <= now.nanos,
    ensures
        now.nanos - flows[state].1 >= flow_expiration_nanos() ==> !flows_after_cleanup(
            flows,
            now,
        ).contains_key(state),
        0 < now.nanos - flows[state].1 < flow_expiration_nanos() ==> flows_after_cleanup(
            flows,
            now,
        ).contains_key(state) && flows_after_cleanup(flows, now)[state] == flows[state],
        flows_after_cleanup(flows, now).dom().subset_of(flows.dom()),
{
}

/// The login flows waiting for their callback, by CSRF state.
pub struct PendingFlows {
    entries: Vec<(String, PendingFlow)>,
}

impl View for PendingFlows {
    type V = Map<Seq<char>, (Seq<char>, u128, Option<Seq<char>>)>;

    closed spec fn view(&self) -> Map<Seq<char>, (Seq<char>, u128, Option<Seq<char>>)> {
        entries_map(self.entries@)
    }
}

impl PendingFlows {
    #[verifier::type_invariant]
    closed spec fn keys_unique(&self) -> bool {
        states_unique(self.entries@)
    }

    /// No flow is pending.
    pub fn new() -> (r: PendingFlows)
        ensures
            r@ == Map::<Seq<char>, (Seq<char>, u128, Option<Seq<char>>)>::empty(),
    {
        let r = PendingFlows { entries: Vec::new() };
        assert(r@ =~= Map::<Seq<char>, (Seq<char>, u128, Option<Seq<char>>)>::empty());
        r
    }

    /// Number of pending flows.
    pub fn len(&self) -> (r: usize)
        ensures
            r == self@.len(),
    {
        proof {
            use_type_invariant(self);
            let e = self.entries@;
            let ks = e.map_values(|x: (String, PendingFlow)| x.0@);
            assert(ks.no_duplicates()) by {
                assert forall|i: int, j: int| 0 <= i < ks.len() && 0 <= j < ks.len() && i != j implies ks[i] != ks[j] by {
                    assert(ks[i] == e[i].0@);
                    assert(ks[j] == e[j].0@);
                }
            }
            ks.unique_seq_to_set();
            assert(ks.to_set() =~= self@.dom()) by {
                assert forall|k: Seq<char>| ks.to_set().contains(k) <==> self@.dom().contains(k) by {
                    if ks.to_set().contains(k) {
                        let i = choose|i: int| 0 <= i < ks.len() && ks[i] == k;
                        assert(e[i].0@ == k);
                    }
                    if self@.dom().contains(k) {
                        let i = choose|i: int| 0 <= i < e.len() && #[trigger] e[i].0@ == k;
                        assert(ks[i] == k);
                    }
                }
            }
        }
        self.entries.len()
    }

    fn position(&self, state: &str) -> (r: Option<usize>)
        ensures
            match r {
                Some(i) => i < self.entries.len() && self.entries@[i as int].0@ == state@,
                None => !self@.contains_key(state@),
            },
    {
        let mut i: usize = 0;
        while i < self.entries.len()
            invariant
                i <= self.entries.len(),
                forall|j: int| 0 <= j < i ==> #[trigger] self.entries@[j].0@ != state@,
            decreases self.entries.len() - i,
        {
            if crate::text::compare_text(self.entries[i].0.as_str(), state)
                == crate::text::Order::Equal {
                return Some(i);
            }
            i = i + 1;
        }
        None
    }

    /// Records a started flow under its CSRF state, replacing any flow
    /// recorded under the same state.
    pub fn insert(&mut self, state: String, flow: PendingFlow)
        ensures
            final(self)@ == old(self)@.insert(state@, flow_view(flow)),
    {
        proof {
            use_type_invariant(&*self);
        }
        let ghost k = state@;
        let ghost fv = flow_view(flow);
        let pos = self.position(state.as_str());
        let mut entries: Vec<(String, PendingFlow)> = Vec::new();
        std::mem::swap(&mut entries, &mut self.entries);
        let ghost old_entries = entries@;
        let ghost before = entries_map(old_entries);
        match pos {
            Some(i) => {
                entries.set(i, (state, flow));
            },
            None => {
                entries.push((state, flow));
            },
        }
        let ghost ne = entries@;
        proof {
            assert(states_unique(ne)) by {
                assert forall|a: int, b: int|
                    0 <= a < ne.len() && 0 <= b < ne.len() && a != b implies #[trigger] ne[a].0@
                        != #[trigger] ne[b].0@ by {
                    let at_a = ne[a].0@ == k;
                    let at_b = ne[b].0@ == k;
                    if a < old_entries.len() && b < old_entries.len() {
                        if pos is Some && a == pos->0 {
                            assert(ne[b] == old_entries[b]);
                            assert(old_entries[a].0@ == k);
                        } else if pos is Some && b == pos->0 {
                            assert(ne[a] == old_entries[a]);
                            assert(old_entries[b].0@ == k);
                        } else {
                            assert(ne[a] == old_entries[a]);
                            assert(ne[b] == old_entries[b]);
                        }
                    } else if a == old_entries.len() {
                        assert(ne[b] == old_entries[b]);
                        assert(!before.contains_key(k));
                        assert(old_entries[b].0@ != k);
                    } else {
                        assert(ne[a] == old_entries[a]);
                        assert(!before.contains_key(k));
                        assert(old_entries[a].0@ != k);
                    }
                }
            }
            assert(entries_map(ne) =~= before.insert(k, fv)) by {
                assert forall|key: Seq<char>|
                    #[trigger] entries_map(ne).contains_key(key) <==> before.insert(
                        k,
                        fv,
                    ).contains_key(key) by {
                    if entries_map(ne).contains_key(key) {
                        let i = choose|i: int| 0 <= i < ne.len() && #[trigger] ne[i].0@ == key;
                        if key != k {
                            assert(ne[i] == old_entries[i]);
                            assert(old_entries[i].0@ == key);
                        }
                    }
                    if before.contains_key(key) && key != k {
                        let i = choose|i: int|
                            0 <= i < old_entries.len() && #[trigger] old_entries[i].0@ == key;
                        assert(ne[i] == old_entries[i]);
                        assert(ne[i].0@ == key);
                    }
                    if key == k {
                        match pos {
                            Some(i) => assert(ne[i as int].0@ == key),
                            None => assert(ne[old_entries.len() as int].0@ == key),
                        }
                    }
                }
                assert forall|key: Seq<char>| #[trigger]
                    entries_map(ne).contains_key(key) implies entries_map(ne)[key] == before.insert(
                    k,
                    fv,
                )[key] by {
                    let i = choose|i: int| 0 <= i < ne.len() && #[trigger] ne[i].0@ == key;
                    lemma_entries_map_at(ne, i);
                    if key != k {
                        assert(ne[i] == old_entries[i]);
                        lemma_entries_map_at(old_entries, i);
                    }
                }
            }
        }
        self.entries = entries;
    }

    /// Removes and returns the flow recorded under `state`, if any.
    pub fn take(&mut self, state: &str) -> (r: Option<PendingFlow>)
        ensures
            match r {
                Some(f) => old(self)@.contains_key(state@) && old(self)@[state@] == flow_view(f),
                None => !old(self)@.contains_key(state@),
            },
            final(self)@ == old(self)@.remove(state@),
    {
        proof {
            use_type_invariant(&*self);
        }
        let pos = self.position(state);
        match pos {
            None => {
                assert(self@ =~= self@.remove(state@));
                None
            },
            Some(i) => {
                let mut entries: Vec<(String, PendingFlow)> = Vec::new();
                std::mem::swap(&mut entries, &mut self.entries);
                let ghost old_entries = entries@;
                let ghost before = entries_map(old_entries);
                proof {
                    lemma_entries_map_at(old_entries, i as int);
                }
                let (_, flow) = entries.remove(i);
                let ghost ne = entries@;
                proof {
                    assert(ne =~= old_entries.remove(i as int));
                    assert(states_unique(ne)) by {
                        assert forall|a: int, b: int|
                            0 <= a < ne.len() && 0 <= b < ne.len() && a != b implies #[trigger] ne[a].0@
                                != #[trigger] ne[b].0@ by {
                            let a2 = if a < i { a } else { a + 1 };
                            let b2 = if b < i { b } else { b + 1 };
                            assert(ne[a] == old_entries[a2]);
                            assert(ne[b] == old_entries[b2]);
                        }
                    }
                    assert(entries_map(ne) =~= before.remove(state@)) by {
                        assert forall|key: Seq<char>|
                            #[trigger] entries_map(ne).contains_key(key) <==> before.remove(
                                state@,
                            ).contains_key(key) by {
                            if entries_map(ne).contains_key(key) {
                                let a = choose|a: int| 0 <= a < ne.len() && #[trigger] ne[a].0@ == key;
                                let a2 = if a < i { a } else { a + 1 };
                                assert(ne[a] == old_entries[a2]);
                                assert(old_entries[a2].0@ == key);
                            }
                            if before.contains_key(key) && key != state@ {
                                let a2 = choose|a: int|
                                    0 <= a < old_entries.len() && #[trigger] old_entries[a].0@ == key;
                                let a = if a2 < i { a2 } else { a2 - 1 };
                                assert(ne[a] == old_entries[a2]);
                                assert(ne[a].0@ == key);
                            }
                        }
                        assert forall|key: Seq<char>| #[trigger]
                            entries_map(ne).contains_key(key) implies entries_map(ne)[key]
                            == before.remove(state@)[key] by {
                            let a = choose|a: int| 0 <= a < ne.len() && #[trigger] ne[a].0@ == key;
                            let a2 = if a < i { a } else { a + 1 };
                            assert(ne[a] == old_entries[a2]);
                            lemma_entries_map_at(ne, a);
                            lemma_entries_map_at(old_entries, a2);
                        }
                    }
                }
                self.entries = entries;
                Some(flow)
            },
        }
    }

    /// The callback's half of a login: the flow recorded under `state` is
    /// taken out; an unknown state is refused.
    pub fn complete(&mut self, state: &str) -> (r: Result<PendingFlow, OauthError>)
        ensures
            match r {
                Ok(f) => old(self)@.contains_key(state@) && old(self)@[state@] == flow_view(f),
                Err(e) => !old(self)@.contains_key(state@) && e == OauthError::InvalidState,
            },
            final(self)@ == old(self)@.remove(state@),
    {
        match self.take(state) {
            Some(f) => Ok(f),
            None => Err(OauthError::InvalidState),
        }
    }

    /// Drops the flows that waited too long (or were started at this very
    /// instant), keeping those that are fresh at `now`.
    pub fn retain_fresh(&mut self, now: Span)
        requires
            now.wf(),
        ensures
            final(self)@ == flows_after_cleanup(old(self)@, now),
    {
        proof {
            use_type_invariant(&*self);
        }
        let mut entries: Vec<(String, PendingFlow)> = Vec::new();
        std::mem::swap(&mut entries, &mut self.entries);
        let ghost old_entries = entries@;
        let ghost before = entries_map(old_entries);
        let mut kept: Vec<(String, PendingFlow)> = Vec::new();
        let ghost mut origin: Seq<int> = Seq::empty();
        let n = entries.len();
        let mut i: usize = 0;
        while i < n
            invariant
                n == old_entries.len(),
                i <= n,
                entries@ == old_entries.skip(i as int),
                states_unique(old_entries),
                now.wf(),
                kept.len() == origin.len(),
                forall|a: int| 0 <= a < origin.len() ==> 0 <= #[trigger] origin[a] < i && kept@[a] == old_entries[origin[a]],
                forall|a: int, b: int| 0 <= a < b < origin.len() ==> #[trigger] origin[a] < #[trigger] origin[b],
                forall|a: int| 0 <= a < origin.len() ==> flow_fresh(#[trigger] kept@[a].1.created_at.nanos, now),
                forall|c: int| 0 <= c < i && flow_fresh(old_entries[c].1.created_at.nanos, now) ==> exists|a: int| 0 <= a < origin.len() && #[trigger] origin[a] == c,
            decreases n - i,
        {
            let ghost prev_origin = origin;
            let e = entries.remove(0);
            assert(e == old_entries[i as int]);
            assert(entries@ =~= old_entries.skip(i + 1));
            let elapsed = now.saturating_since(e.1.created_at);
            if elapsed.nanos < 900000000000u128 && elapsed.nanos != 0 {
                kept.push(e);
                proof {
                    origin = origin.push(i as int);
                    assert(origin[origin.len() - 1] == i as int);
                }
            }
            proof {
                assert forall|c: int| 0 <= c < i + 1 && flow_fresh(old_entries[c].1.created_at.nanos, now) implies exists|a: int| 0 <= a < origin.len() && #[trigger] origin[a] == c by {
                    if c < i {
                        let a = choose|a: int| 0 <= a < prev_origin.len() && #[trigger] prev_origin[a] == c;
                        assert(origin[a] == c);
                    } else {
                        assert(origin[origin.len() - 1] == c);
                    }
                }
            }
            i = i + 1;
        }
        let ghost ke = kept@;
        proof {
            assert(states_unique(ke)) by {
                assert forall|a: int, b: int|
                    0 <= a < ke.len() && 0 <= b < ke.len() && a != b implies #[trigger] ke[a].0@
                        != #[trigger] ke[b].0@ by {
                    if a < b {
                        assert(origin[a] < origin[b]);
                    } else {
                        assert(origin[b] < origin[a]);
                    }
                }
            }
            let target = Map::new(
                |k: Seq<char>| before.contains_key(k) && flow_fresh(before[k].1, now),
                |k: Seq<char>| before[k],
            );
            assert(entries_map(ke) =~= target) by {
                assert forall|key: Seq<char>| #[trigger] entries_map(ke).contains_key(key) <==> target.contains_key(key) by {
                    if entries_map(ke).contains_key(key) {
                        let a = choose|a: int| 0 <= a < ke.len() && #[trigger] ke[a].0@ == key;
                        let c = origin[a];
                        assert(old_entries[c].0@ == key);
                        lemma_entries_map_at(old_entries, c);
                        assert(flow_fresh(ke[a].1.created_at.nanos, now));
                    }
                    if target.contains_key(key) {
                        let c = choose|c: int| 0 <= c < old_entries.len() && #[trigger] old_entries[c].0@ == key;
                        lemma_entries_map_at(old_entries, c);
                        assert(flow_fresh(old_entries[c].1.created_at.nanos, now));
                        let a = choose|a: int| 0 <= a < origin.len() && #[trigger] origin[a] == c;
                        assert(ke[a].0@ == key);
                    }
                }
                assert forall|key: Seq<char>| #[trigger] entries_map(ke).contains_key(key) implies entries_map(ke)[key] == target[key] by {
                    let a = choose|a: int| 0 <= a < ke.len() && #[trigger] ke[a].0@ == key;
                    let c = origin[a];
                    lemma_entries_map_at(ke, a);
                    lemma_entries_map_at(old_entries, c);
                }
            }
        }
        self.entries = kept;
    }
}

/// A login sent to the provider: the address to send the browser to, the
/// CSRF state it carries and the PKCE verifier of its challenge.
pub struct AuthRequest {
    pub url: String,
    pub state: String,
    pub verifier: String,
}

/// Builds the provider's authorization address (oauth2's `authorize_url`
/// with a random CSRF state (`CsrfToken::new_random`), the configured
/// scopes and a random SHA-256 PKCE challenge (`new_random_sha256`)).
/// `None` when the authorization or redirect address does not parse. The
/// state and verifier are random: only their lengths (16 and 32 random
/// bytes, base64 without padding) are promised; nothing is said of the
/// address.
#[verifier::external_body]
fn authorization_request(config: &OAuth2Config, redirect_url: &str) -> (r: Option<AuthRequest>)
    ensures
        r matches Some(q) ==> q.state@.len() == 22 && q.verifier@.len() == 43,
{
    let auth = AuthUrl::new(config.auth_url.clone()).ok()?;
    let redirect = RedirectUrl::new(redirect_url.to_string()).ok()?;
    let client = BasicClient::new(ClientId::new(config.client_id.clone()))
        .set_auth_uri(auth)
        .set_redirect_uri(redirect);
    let (challenge, verifier) = PkceCodeChallenge::new_random_sha256();
    let scopes = config.scopes.iter().map(|s| Scope::new(s.clone()));
    let (url, state) = client.authorize_url(CsrfToken::new_random).add_scopes(scopes)
        .set_pkce_challenge(challenge).url();
    Some(AuthRequest { url: url.to_string(), state: state.secret().clone(), verifier: verifier.secret().clone() })
}

/// Records a login sent to the provider, started at `now` with `next` as the
/// page to return to, and gives the address to send the browser to.
pub fn record_flow(
    flows: &mut PendingFlows,
    request: AuthRequest,
    next: Option<String>,
    now: Span,
) -> (r: String)
    ensures
        r@ == request.url@,
        final(flows)@ == old(flows)@.insert(
            request.state@,
            (request.verifier@, now.nanos, opt_view(next)),
        ),
{
    flows.insert(request.state, PendingFlow { verifier: request.verifier, created_at: now, next });
    request.url
}

/// Starts a login: builds the provider's authorization request and records
/// its state and verifier with `now` and `next`, giving the address to send
/// the browser to; `None`, with nothing recorded, when the configured
/// addresses do not parse.
pub fn start_flow(
    flows: &mut PendingFlows,
    config: &OAuth2Config,
    redirect_url: &str,
    next: Option<String>,
    now: Span,
) -> (r: Option<String>)
    ensures
        match r {
            None => final(flows)@ == old(flows)@,
            Some(_) => exists|state: Seq<char>, verifier: Seq<char>|
                state.len() == 22 && verifier.len() == 43 && final(flows)@ == #[trigger] old(
                    flows,
                )@.insert(state, (verifier, now.nanos, opt_view(next))),
        },
{
    match authorization_request(config, redirect_url) {
        Some(request) => {
            Some(record_flow(flows, request, next, now))
        },
        None => None,
    }
}

} // verus!
