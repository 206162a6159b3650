use mod_explorer::auth::config::{
    protected_route_prefixes, session_cleanup_interval, Config, OAuth2Config, RouteConfig,
    SessionConfig,
};
use mod_explorer::auth::endpoints::{
    callback_destination, callback_step, check_game_ownership, CallbackAction, CallbackError,
    CallbackEvent, CallbackQuery, CallbackStage, LoginQuery, SafeNext,
};
use mod_explorer::auth::guard::{
    after_refresh, check_request, is_protected, login_redirect, refresh_window, unauthorized_body,
    GuardAction,
};
use mod_explorer::auth::profile::{
    main_profile_endpoint, mod_portal_profile_endpoint, MainProfile, ModPortalProfile,
    ProfileFetchError,
};
use mod_explorer::auth::provider::{
    record_flow, start_flow, AuthRequest, OauthError, PendingFlow, PendingFlows, Token,
};
use mod_explorer::auth::session::{session_key, ModInfo, SessionPublic};
use mod_explorer::span::{wall_clock_now, MonotonicClock, Span, WallTime};

fn s(x: &str) -> String {
    x.to_string()
}

const SEC: u128 = 1_000_000_000;

fn route() -> RouteConfig {
    RouteConfig {
        base_url: s("https://explorer.example/"),
        prefix: s("/auth"),
        protected_prefixes: protected_route_prefixes(),
    }
}

fn session_config(timeout: u64) -> SessionConfig {
    SessionConfig { storage_path: None, cookie_name: s("sid"), cookie_insecure: false, timeout_seconds: timeout }
}

/// The wall-clock time `secs` seconds from the epoch (before it when negative).
fn at(secs: i128) -> WallTime {
    WallTime::from_offset(secs < 0, Span { nanos: secs.unsigned_abs() * SEC })
}

fn token(expires_secs: Option<u128>, fetched_secs: i128) -> Token {
    Token {
        access_token: s("at"),
        refresh_token: Some(s("rt")),
        expires_in: expires_secs.map(|e| Span { nanos: e * SEC }),
        fetched_at: at(fetched_secs),
    }
}

#[test]
fn oauth_error_messages() {
    assert_eq!(OauthError::InvalidState.message(), "Invalid state parameter");
    assert_eq!(
        OauthError::TokenExchangeFailed.message(),
        "Failed to exchange authorization code for access token"
    );
    assert_eq!(OauthError::MissingRefreshToken.message(), "No refresh token available");
    assert_eq!(OauthError::TokenRefreshFailed.message(), "Failed to refresh access token");
}

#[test]
fn profile_error_messages() {
    assert_eq!(ProfileFetchError::RequestFailed.message(), "Failed to fetch profile: HTTP request failed");
    assert_eq!(ProfileFetchError::ParseFailed.message(), "Failed to parse profile response");
    assert_eq!(main_profile_endpoint(), "https://factorio.com/api/profile");
    assert_eq!(mod_portal_profile_endpoint(), "https://mods.factorio.com/api/profile");
}

#[test]
fn token_expiry_by_age() {
    let t = token(Some(3600), 1000);
    assert!(!t.is_expired_at(at(1000)));
    assert!(!t.is_expired_at(at(4599)));
    assert!(t.is_expired_at(at(4600)));
    // fetched in the future: infinitely old
    assert!(t.is_expired_at(at(999)));
    assert!(t.is_expired_at(at(-5)));
    // no lifetime: never expires
    assert!(!token(None, 0).is_expired_at(at(-5)));
}

#[test]
fn token_age_across_the_epoch() {
    // fetched and checked with the clock before the epoch: the age is the
    // time between the two readings
    let t = token(Some(3600), -2000);
    assert_eq!(t.age_at_time(at(-1000)).nanos, 1000 * SEC);
    assert!(!t.is_expired_at(at(-1000)));
    assert_eq!(t.age_at_time(at(1599)).nanos, 3599 * SEC);
    assert!(!t.is_expired_at(at(1599)));
    assert!(t.is_expired_at(at(1600)));
    assert!(t.should_refresh_at(at(-200), refresh_window()));
    assert!(!t.should_refresh_at(at(-201), refresh_window()));
}

#[test]
fn wall_times_and_gaps() {
    assert_eq!(at(-5).epoch_offset(), (true, Span { nanos: 5 * SEC }));
    assert_eq!(at(0).epoch_offset(), (false, Span::zero()));
    assert_eq!(at(7).epoch_offset(), (false, Span { nanos: 7 * SEC }));
    assert_eq!(WallTime::from_offset(true, Span::zero()), at(0));
    assert_eq!(at(3).since(&at(-2)), Some(Span { nanos: 5 * SEC }));
    assert_eq!(at(-2).since(&at(3)), None);
    assert_eq!(at(4).since(&at(4)), Some(Span::zero()));
    let latest = WallTime::from_offset(false, Span::max());
    let earliest = WallTime::from_offset(true, Span::max());
    assert_eq!(latest.since(&at(0)), Some(Span::max()));
    assert_eq!(latest.since(&earliest), None);
}

#[test]
fn token_refresh_window() {
    let t = token(Some(3600), 1000);
    let w = refresh_window();
    assert_eq!(w.nanos, 1800 * SEC);
    assert!(!t.should_refresh_at(at(2799), w));
    assert!(t.should_refresh_at(at(2800), w));
    assert!(!token(None, 0).should_refresh_at(at(10), w));
    assert!(t.should_refresh_at(at(-1), w));
}

#[test]
fn token_age_saturates() {
    let t = token(Some(1), 10);
    assert_eq!(t.age_at_time(at(15)).nanos, 5 * SEC);
    assert_eq!(t.age_at_time(at(5)), Span::max());
    assert_eq!(Span::max().saturating_add(Span::from_secs(1)), Span::max());
}

#[test]
fn expired_token_is_due_for_refresh() {
    let t = token(Some(100), 0);
    assert!(t.is_expired_at(at(500)));
    assert!(t.should_refresh_at(at(500), Span::zero()));
}

#[test]
fn refresh_keeps_old_refresh_token_when_none_given() {
    let mut t = token(Some(100), 0);
    t.apply_refresh(s("new"), None, Some(Span::from_secs(50)), at(200));
    assert_eq!(t.access_token, "new");
    assert_eq!(t.refresh_token, Some(s("rt")));
    assert_eq!(t.expires_in, Some(Span::from_secs(50)));
    assert_eq!(t.fetched_at, at(200));
    assert!(!t.is_expired_at(at(200)));
    t.apply_refresh(s("newer"), Some(s("rt2")), None, at(300));
    assert_eq!(t.refresh_token, Some(s("rt2")));
}

#[test]
fn missing_refresh_token() {
    let mut t = token(Some(100), 0);
    assert_eq!(t.refresh_credential(), Ok(s("rt")));
    t.refresh_token = None;
    assert_eq!(t.refresh_credential(), Err(OauthError::MissingRefreshToken));
}

fn flow(v: &str, created_secs: u128, next: Option<&str>) -> PendingFlow {
    PendingFlow { verifier: s(v), created_at: Span { nanos: created_secs * SEC }, next: next.map(s) }
}

#[test]
fn flow_completes_once() {
    let mut flows = PendingFlows::new();
    flows.insert(s("state1"), flow("ver1", 10, Some("/mod/x")));
    flows.insert(s("state2"), flow("ver2", 11, None));
    assert_eq!(flows.len(), 2);
    let f = flows.complete("state1").ok().unwrap();
    assert_eq!(f.verifier, "ver1");
    assert_eq!(f.next, Some(s("/mod/x")));
    assert!(matches!(flows.complete("state1"), Err(OauthError::InvalidState)));
    assert_eq!(flows.len(), 1);
    assert!(flows.take("state2").is_some());
    assert!(flows.take("state2").is_none());
}

#[test]
fn flow_insert_replaces_same_state() {
    let mut flows = PendingFlows::new();
    flows.insert(s("st"), flow("a", 1, None));
    flows.insert(s("st"), flow("b", 2, None));
    assert_eq!(flows.len(), 1);
    assert_eq!(flows.take("st").unwrap().verifier, "b");
}

#[test]
fn stale_flows_are_dropped() {
    let mut flows = PendingFlows::new();
    flows.insert(s("old"), flow("a", 0, None));
    flows.insert(s("young"), flow("b", 100, None));
    flows.insert(s("now"), flow("c", 1000, None));
    flows.insert(s("edge"), flow("d", 100, None));
    // at 1000 s: old is 1000 s (> 900 s), young 900 s (not below 900 s), now 0 s (zero is dropped)
    flows.retain_fresh(Span { nanos: 1000 * SEC });
    assert_eq!(flows.len(), 0);
    let mut flows = PendingFlows::new();
    flows.insert(s("a"), flow("a", 500, None));
    flows.insert(s("b"), flow("b", 2000, None));
    flows.retain_fresh(Span { nanos: 1000 * SEC });
    assert_eq!(flows.len(), 1);
    assert!(flows.take("a").is_some());
}

#[test]
fn redirect_url_joins_callback() {
    let c = Config {
        oauth2: OAuth2Config {
            auth_url: s("https://auth.example/authorize"),
            token_url: s("https://auth.example/token"),
            scopes: vec![s("read")],
            client_id: s("id"),
            client_secret: s("SECRET-REDACTED"),
        },
        route: route(),
        session: session_config(3600),
    };
    assert_eq!(c.get_redirect_url(), Some(s("https://explorer.example/auth/callback")));
    let bad = Config { route: RouteConfig { base_url: s("not a url"), ..route() }, ..c };
    assert_eq!(bad.get_redirect_url(), None);
}

#[test]
fn route_paths() {
    let r = route();
    assert_eq!(r.login_route(), "/auth/login");
    assert_eq!(r.callback_route(), "/auth/callback");
    assert_eq!(protected_route_prefixes(), vec![s("/mod/"), s("/api/sec/")]);
}

#[test]
fn cookie_settings() {
    let c = session_config(3600);
    assert_eq!(c.cookie_max_age(), 4500);
    assert!(c.cookie_secure());
    assert_eq!(c.minimum_expiry(), Span::from_secs(3600));
    assert_eq!(session_config(3).cookie_max_age(), 3);
    assert_eq!(session_cleanup_interval(), Span::from_secs(60));
    assert!(!SessionConfig { cookie_insecure: true, ..session_config(1) }.cookie_secure());
}

#[test]
fn protected_prefix_match() {
    let p = protected_route_prefixes();
    assert!(is_protected(&p, "/mod/base/latest"));
    assert!(is_protected(&p, "/api/sec/get_file_tree"));
    assert!(!is_protected(&p, "/mod"));
    assert!(!is_protected(&p, "/api/get_available_mods"));
    assert!(!is_protected(&p, "/"));
}

#[test]
fn login_redirect_encodes_return_path() {
    assert_eq!(login_redirect("/auth", Some("/mod/x?a=1")), "/auth/login?next=%2Fmod%2Fx%3Fa%3D1");
    assert_eq!(login_redirect("/auth", None), "/auth/login?next=%2F");
    assert_eq!(login_redirect("/auth", Some("/mod/é")), "/auth/login?next=%2Fmod%2F%C3%A9");
}

#[test]
fn guard_forwards_unprotected_paths() {
    assert_eq!(check_request(&route(), "/", Some("/"), None, at(0)), GuardAction::Forward);
    let t = token(Some(1), 0);
    assert_eq!(check_request(&route(), "/pkg/app.js", None, Some(&t), at(100)), GuardAction::Forward);
}

#[test]
fn guard_without_session() {
    assert_eq!(check_request(&route(), "/api/sec/fetch_file", None, None, at(0)), GuardAction::Unauthorized);
    assert_eq!(
        check_request(&route(), "/mod/base/latest", Some("/mod/base/latest"), None, at(0)),
        GuardAction::Login { location: s("/auth/login?next=%2Fmod%2Fbase%2Flatest"), drop_session: false }
    );
    assert_eq!(unauthorized_body(), "Unauthorized");
}

#[test]
fn guard_with_session() {
    let t = token(Some(7200), 0);
    assert_eq!(check_request(&route(), "/mod/a", Some("/mod/a"), Some(&t), at(10)), GuardAction::Admit);
    assert_eq!(check_request(&route(), "/mod/a", Some("/mod/a"), Some(&t), at(5400)), GuardAction::Refresh);
    assert_eq!(
        check_request(&route(), "/mod/a", Some("/mod/a"), Some(&t), at(7200)),
        GuardAction::Login { location: s("/auth/login?next=%2Fmod%2Fa"), drop_session: true }
    );
    // an expired session on an API path is also sent to log in again
    assert_eq!(
        check_request(&route(), "/api/sec/x", None, Some(&t), at(9000)),
        GuardAction::Login { location: s("/auth/login?next=%2F"), drop_session: true }
    );
}

#[test]
fn guard_after_refresh() {
    assert_eq!(after_refresh(&route(), Some("/mod/a"), true), GuardAction::Admit);
    assert_eq!(
        after_refresh(&route(), Some("/mod/a"), false),
        GuardAction::Login { location: s("/auth/login?next=%2Fmod%2Fa"), drop_session: true }
    );
}

#[test]
fn safe_next_only_local_paths() {
    assert_eq!(SafeNext::from_path(s("/mod/x")), SafeNext(s("/mod/x")));
    assert_eq!(SafeNext::from_path(s("//evil.example/x")), SafeNext(s("/")));
    assert_eq!(SafeNext::from_path(s("https://evil.example")), SafeNext(s("/")));
    assert_eq!(SafeNext::from_path(s("")), SafeNext(s("/")));
    let q = LoginQuery { next: Some(SafeNext(s("/mod/y"))) };
    assert_eq!(q.destination(), Some(s("/mod/y")));
    assert_eq!(LoginQuery { next: None }.destination(), None);
}

#[test]
fn callback_answers() {
    let _q = CallbackQuery { code: s("c"), state: s("st") };
    assert_eq!(CallbackError::NoGameOwnership.status(), 403);
    assert_eq!(
        CallbackError::NoGameOwnership.message(),
        "You do not have ownership of the game and thus also no access to the mod portal!"
    );
    assert_eq!(CallbackError::Exchange(OauthError::InvalidState).status(), 500);
    assert_eq!(CallbackError::Exchange(OauthError::InvalidState).message(), "Invalid state parameter");
    assert_eq!(
        CallbackError::Profile(ProfileFetchError::ParseFailed).message(),
        "Failed to parse profile response"
    );
    assert_eq!(CallbackError::SessionStore.message(), "Failed to create session");
    assert_eq!(callback_destination(None), "/");
    assert_eq!(callback_destination(Some(s("/mod/z"))), "/mod/z");
}

fn main_profile(owns: bool) -> MainProfile {
    MainProfile {
        account_created_at: s("2020"),
        account_upgraded_at: None,
        game_ownership: owns,
        id: s("1"),
        memberships: vec![],
        steam_id_connected: false,
        username: s("u"),
    }
}

#[test]
fn only_game_owners_log_in() {
    assert_eq!(check_game_ownership(&main_profile(true)), Ok(()));
    assert_eq!(check_game_ownership(&main_profile(false)), Err(CallbackError::NoGameOwnership));
}

#[test]
fn portal_profile_becomes_public_session_data() {
    let m = ModInfo { downloads_count: 3, id: s("i"), name: s("n"), title: s("t") };
    let p = ModPortalProfile {
        avatar_url: s("https://cdn.example/a.png"),
        id: s("id"),
        mods: vec![m.clone()],
        mods_collaborated: vec![],
        username: s("alice"),
    };
    let pubd: SessionPublic = p.into();
    assert_eq!(pubd.username, "alice");
    assert_eq!(pubd.avatar_url, "https://cdn.example/a.png");
    assert_eq!(pubd.mods, vec![m]);
    assert!(pubd.mods_collaborated.is_empty());
    assert_eq!(session_key(), "auth");
}

#[test]
fn expiry_is_permanent() {
    let t = token(Some(60), 100);
    assert!(t.is_expired_at(at(160)));
    assert!(t.is_expired_at(at(161)));
    assert!(t.is_expired_at(at(100_000)));
}

#[test]
fn wall_clock_checks() {
    // a token from the first second after the epoch with a one second lifetime is long expired
    assert!(token(Some(1), 1).is_expired());
    assert!(token(Some(1), 1).should_refresh(Span::zero()));
    assert!(!token(None, 1).is_expired());
    assert!(!token(None, 1).should_refresh(Span::from_secs(60)));
    let (before_epoch, offset) = wall_clock_now().epoch_offset();
    assert!(!before_epoch);
    assert!(offset.nanos > 1_600_000_000 * SEC);
    let clock = MonotonicClock::start();
    let a = clock.now();
    let b = clock.now();
    assert!(b.nanos >= a.nanos);
}

#[test]
fn cleanup_refuses_stale_logins() {
    let mut flows = PendingFlows::new();
    flows.insert(s("st"), flow("v", 100, Some("/mod/a")));
    // 899 s after it was started the login is kept
    flows.retain_fresh(Span { nanos: 999 * SEC });
    assert_eq!(flows.len(), 1);
    // 900 s after, a cleanup drops it and its callback is refused
    flows.retain_fresh(Span { nanos: 1000 * SEC });
    assert_eq!(flows.len(), 0);
    assert_eq!(flows.complete("st").err(), Some(OauthError::InvalidState));
}

fn provider_config(auth_url: &str) -> OAuth2Config {
    OAuth2Config {
        auth_url: s(auth_url),
        token_url: s("https://auth.example/token"),
        scopes: vec![s("read"), s("write")],
        client_id: s("id"),
        client_secret: s("SECRET-REDACTED"),
    }
}

#[test]
fn recorded_flow_is_the_request_sent() {
    let mut flows = PendingFlows::new();
    let request = AuthRequest { url: s("https://auth.example/authorize?state=st"), state: s("st"), verifier: s("ver") };
    let url = record_flow(&mut flows, request, Some(s("/mod/a")), Span { nanos: 7 * SEC });
    assert_eq!(url, "https://auth.example/authorize?state=st");
    let f = flows.take("st").unwrap();
    assert_eq!(f.verifier, "ver");
    assert_eq!(f.created_at, Span { nanos: 7 * SEC });
    assert_eq!(f.next, Some(s("/mod/a")));
}

#[test]
fn started_flow_records_the_state_in_its_address() {
    let mut flows = PendingFlows::new();
    let config = provider_config("https://auth.example/authorize");
    let address = start_flow(&mut flows, &config, "https://explorer.example/auth/callback", None, Span { nanos: 3 * SEC })
        .unwrap();
    let url = url::Url::parse(&address).unwrap();
    assert_eq!(url.path(), "/authorize");
    let query: Vec<(String, String)> = url.query_pairs().map(|(k, v)| (k.to_string(), v.to_string())).collect();
    let get = |key: &str| query.iter().find(|(k, _)| k == key).map(|(_, v)| v.clone());
    assert_eq!(get("client_id"), Some(s("id")));
    assert_eq!(get("redirect_uri"), Some(s("https://explorer.example/auth/callback")));
    assert_eq!(get("scope"), Some(s("read write")));
    assert_eq!(get("code_challenge_method"), Some(s("S256")));
    let state = get("state").unwrap();
    assert_eq!(state.len(), 22);
    assert_eq!(flows.len(), 1);
    let f = flows.take(&state).unwrap();
    assert_eq!(f.verifier.len(), 43);
    assert_eq!(f.created_at, Span { nanos: 3 * SEC });
    assert_eq!(f.next, None);
}

#[test]
fn unparsable_provider_address_starts_nothing() {
    let mut flows = PendingFlows::new();
    let config = provider_config("not a url");
    assert_eq!(start_flow(&mut flows, &config, "https://explorer.example/auth/callback", None, Span::zero()), None);
    assert_eq!(flows.len(), 0);
    let config = provider_config("https://auth.example/authorize");
    assert_eq!(start_flow(&mut flows, &config, "::", None, Span::zero()), None);
    assert_eq!(flows.len(), 0);
}

#[test]
fn callback_steps_in_order() {
    let (next, action) = callback_step(CallbackStage::Exchanging, CallbackEvent::Exchanged(Ok(Some(s("/mod/a")))));
    assert_eq!(action, CallbackAction::FetchMainProfile);
    let next = next.unwrap();
    assert!(matches!(&next, CallbackStage::FetchingMainProfile { destination: Some(d) } if d == "/mod/a"));
    let (next, action) = callback_step(next, CallbackEvent::MainProfileFetched(Ok(main_profile(true))));
    assert_eq!(action, CallbackAction::FetchPortalProfile);
    let (next, action) = callback_step(next.unwrap(), CallbackEvent::PortalProfileFetched(Ok(())));
    assert_eq!(action, CallbackAction::StoreSession);
    let (next, action) = callback_step(next.unwrap(), CallbackEvent::SessionStored(true));
    assert!(next.is_none());
    assert_eq!(action, CallbackAction::Redirect(s("/mod/a")));
}

#[test]
fn callback_refusals() {
    let (next, action) = callback_step(
        CallbackStage::Exchanging,
        CallbackEvent::Exchanged(Err(OauthError::InvalidState)),
    );
    assert!(next.is_none());
    assert_eq!(action, CallbackAction::Refuse(CallbackError::Exchange(OauthError::InvalidState)));
    let (next, action) = callback_step(
        CallbackStage::FetchingMainProfile { destination: None },
        CallbackEvent::MainProfileFetched(Ok(main_profile(false))),
    );
    assert!(next.is_none());
    assert_eq!(action, CallbackAction::Refuse(CallbackError::NoGameOwnership));
    let (_, action) = callback_step(
        CallbackStage::FetchingMainProfile { destination: None },
        CallbackEvent::MainProfileFetched(Err(ProfileFetchError::ParseFailed)),
    );
    assert_eq!(action, CallbackAction::Refuse(CallbackError::Profile(ProfileFetchError::ParseFailed)));
    let (_, action) = callback_step(
        CallbackStage::FetchingPortalProfile { destination: None },
        CallbackEvent::PortalProfileFetched(Err(ProfileFetchError::RequestFailed)),
    );
    assert_eq!(action, CallbackAction::Refuse(CallbackError::Profile(ProfileFetchError::RequestFailed)));
    let (_, action) = callback_step(CallbackStage::StoringSession { destination: None }, CallbackEvent::SessionStored(false));
    assert_eq!(action, CallbackAction::Refuse(CallbackError::SessionStore));
    let (_, action) = callback_step(CallbackStage::StoringSession { destination: None }, CallbackEvent::SessionStored(true));
    assert_eq!(action, CallbackAction::Redirect(s("/")));
}
