//! The login check in front of every request.

use vstd::prelude::*;
use crate::auth::config::{RouteConfig, login_path};
use crate::auth::provider::Token;
use crate::encode::{url_encode, url_encoded};
use crate::span::{Span, WallTime};
use crate::text::{concat3, has_prefix, text_starts_with, views};

verus! {

/// What to do with a request.
#[derive(Debug, PartialEq, Eq)]
pub enum GuardAction {
    /// The path needs no login: pass the request on unchanged.
    Forward,
    /// An API path without a session: answer 401 Unauthorized.
    Unauthorized,
    /// Send the browser to the login page at `location`; with
    /// `drop_session`, the stored session is removed first.
    Login { location: String, drop_session: bool },
    /// The session's token is due for a refresh: refresh it and ask again
    /// with `after_refresh`.
    Refresh,
    /// Let the request through with the session's public data attached.
    Admit,
}

/// `path` starts with one of the protected prefixes.
pub open spec fn is_protected_path(prefixes: Seq<Seq<char>>, path: Seq<char>) -> bool {
    exists|i: int| 0 <= i < prefixes.len() && has_prefix(path, #[trigger] prefixes[i])
}

/// Where the login page is, with the current path and query to come back to
/// (`/` when the request has none).
pub open spec fn login_location(prefix: Seq<char>, path_and_query: Option<Seq<char>>) -> Seq<char> {
    login_path(prefix) + "?next="@ + url_encoded(
        match path_and_query {
            Some(p) => p,
            None => "/"@,
        },
    )
}

/// API paths are answered with a status instead of a redirect.
pub open spec fn is_api_path(path: Seq<char>) -> bool {
    has_prefix(path, "/api"@)
}

/// How long before expiry a token is refreshed: 30 minutes.
pub open spec fn refresh_window_nanos() -> int {
    1800000000000
}

/// How long before expiry a token is refreshed: 30 minutes.
pub fn refresh_window() -> (r: Span)
    ensures
        r.nanos == refresh_window_nanos(),
        r.wf(),
{
    Span::from_mins(30)
}

/// The body of the 401 answer.
pub fn unauthorized_body() -> (r: &'static str)
    ensures
        r@ == "Unauthorized"@,
{
    "Unauthorized"
}

/// Whether `path` starts with any of `prefixes`.
pub fn is_protected(prefixes: &Vec<String>, path: &str) -> (r: bool)
    ensures
        r == is_protected_path(views(prefixes@), path@),
{
    let mut i: usize = 0;
    while i < prefixes.len()
        invariant
            i <= prefixes.len(),
            forall|j: int| 0 <= j < i ==> !has_prefix(path@, #[trigger] views(prefixes@)[j]),
        decreases prefixes.len() - i,
    {
        if text_starts_with(path, prefixes[i].as_str()) {
            assert(has_prefix(path@, views(prefixes@)[i as int]));
            return true;
        }
        i = i + 1;
    }
    false
}

/// The login page's address for a request: the login route with the
/// requested path and query as the page to return to.
pub fn login_redirect(prefix: &str, path_and_query: Option<&str>) -> (r: String)
    ensures
        r@ == login_location(prefix@, match path_and_query {
            Some(p) => Some(p@),
            None => None,
        }),
{
    let next = match path_and_query {
        Some(p) => p,
        None => "/",
    };
    let encoded = url_encode(next);
    proof {
        reveal_strlit("/login?next=");
        reveal_strlit("/login");
        reveal_strlit("?next=");
    }
    let r = concat3(prefix, "/login?next=", encoded.as_str());
    assert(r@ =~= login_path(prefix@) + "?next="@ + encoded@);
    r
}

/// Decides what to do with a request for `path` (with `path_and_query` as
/// the browser sent it), given the session's token, if any, and the wall
/// clock `now`.
pub fn check_request(
    route: &RouteConfig,
    path: &str,
    path_and_query: Option<&str>,
    session: Option<&Token>,
    now: WallTime,
) -> (r: GuardAction)
    ensures
        ({
            let prot = is_protected_path(views(route.protected_prefixes@), path@);
            let pq = match path_and_query {
                Some(p) => Some(p@),
                None => None,
            };
            match r {
                GuardAction::Forward => !prot,
                GuardAction::Unauthorized => prot && session is None && is_api_path(path@),
                GuardAction::Login { location, drop_session } => prot && location@
                    == login_location(route.prefix@, pq) && match session {
                    None => !is_api_path(path@) && !drop_session,
                    Some(t) => t.expired(now) && drop_session,
                },
                GuardAction::Refresh => prot && (session matches Some(t) && !t.expired(now)
                    && t.refresh_due(now, Span { nanos: refresh_window_nanos() as u128 })),
                GuardAction::Admit => prot && (session matches Some(t) && !t.expired(now)
                    && !t.refresh_due(now, Span { nanos: refresh_window_nanos() as u128 })),
            }
        }),
{
    if !is_protected(&route.protected_prefixes, path) {
        return GuardAction::Forward;
    }
    match session {
        None => {
            proof {
                reveal_strlit("/api");
            }
            if text_starts_with(path, "/api") {
                GuardAction::Unauthorized
            } else {
                GuardAction::Login {
                    location: login_redirect(route.prefix.as_str(), path_and_query),
                    drop_session: false,
                }
            }
        },
        Some(token) => {
            if token.is_expired_at(now) {
                GuardAction::Login {
                    location: login_redirect(route.prefix.as_str(), path_and_query),
                    drop_session: true,
                }
            } else if token.should_refresh_at(now, refresh_window()) {
                GuardAction::Refresh
            } else {
                GuardAction::Admit
            }
        },
    }
}

/// What to do once a refresh was tried: admit with the refreshed session,
/// or drop the session and send the browser to log in again.
pub fn after_refresh(route: &RouteConfig, path_and_query: Option<&str>, refreshed: bool) -> (r:
    GuardAction)
    ensures
        refreshed ==> r == GuardAction::Admit,
        !refreshed ==> (r matches GuardAction::Login { location, drop_session } && drop_session
            && location@ == login_location(route.prefix@, match path_and_query {
            Some(p) => Some(p@),
            None => None,
        })),
{
    if refreshed {
        GuardAction::Admit
    } else {
        GuardAction::Login {
            location: login_redirect(route.prefix.as_str(), path_and_query),
            drop_session: true,
        }
    }
}

} // verus!
