//! Configuration of the login: provider, routes and session cookie.

use vstd::prelude::*;
use crate::span::Span;
use crate::text::{concat2, views};

verus! {

#[verifier::external_type_specification]
#[verifier::external_body]
pub struct ExPathBuf(std::path::PathBuf);

/// The whole login configuration.
pub struct Config {
    pub oauth2: OAuth2Config,
    pub route: RouteConfig,
    pub session: SessionConfig,
}

/// The OAuth2 provider: its endpoints (as URL text), scopes and client.
pub struct OAuth2Config {
    pub auth_url: String,
    pub token_url: String,
    pub scopes: Vec<String>,
    pub client_id: String,
    pub client_secret: String,
}

/// Where the login routes live and which paths need a login.
pub struct RouteConfig {
    pub base_url: String,
    pub prefix: String,
    pub protected_prefixes: Vec<String>,
}

/// Where sessions are stored and how the session cookie is set.
pub struct SessionConfig {
    pub storage_path: Option<std::path::PathBuf>,
    pub cookie_name: String,
    pub cookie_insecure: bool,
    pub timeout_seconds: u64,
}

/// What `Url::parse(base)` followed by `Url::join(input)` gives, as URL
/// text; `None` when either fails.
pub uninterp spec fn url_join(base: Seq<char>, input: Seq<char>) -> Option<Seq<char>>;

/// Resolves `input` against the URL `base` (`url::Url::parse`, then
/// `url::Url::join`, then the URL's text). The result is named, not stated:
/// URL resolution follows the WHATWG URL standard.
#[verifier::external_body]
fn join_url(base: &str, input: &str) -> (r: Option<String>)
    ensures
        match r {
            Some(u) => url_join(base@, input@) == Some(u@),
            None => url_join(base@, input@) is None,
        },
{
    match url::Url::parse(base) {
        Ok(b) => match b.join(input) {
            Ok(u) => Some(u.as_str().to_string()),
            Err(_) => None,
        },
        Err(_) => None,
    }
}

/// The path of the provider's callback, relative to the base URL.
pub open spec fn callback_path(prefix: Seq<char>) -> Seq<char> {
    prefix + "/callback"@
}

/// The path of the login route.
pub open spec fn login_path(prefix: Seq<char>) -> Seq<char> {
    prefix + "/login"@
}

impl Config {
    /// The URL the provider sends the user back to: the callback path
    /// resolved against the base URL. `None` where the routing is configured
    /// so that the two do not form a URL.
    pub fn get_redirect_url(&self) -> (r: Option<String>)
        ensures
            match r {
                Some(u) => url_join(self.route.base_url@, callback_path(self.route.prefix@))
                    == Some(u@),
                None => url_join(self.route.base_url@, callback_path(self.route.prefix@)) is None,
            },
    {
        let rel = concat2(self.route.prefix.as_str(), "/callback");
        join_url(self.route.base_url.as_str(), rel.as_str())
    }
}

impl RouteConfig {
    /// The login route under the prefix.
    pub fn login_route(&self) -> (r: String)
        ensures
            r@ == login_path(self.prefix@),
    {
        concat2(self.prefix.as_str(), "/login")
    }

    /// The callback route under the prefix.
    pub fn callback_route(&self) -> (r: String)
        ensures
            r@ == callback_path(self.prefix@),
    {
        concat2(self.prefix.as_str(), "/callback")
    }
}

/// The path prefixes that need a login: the mod explorer pages and the
/// secured API.
pub fn protected_route_prefixes() -> (r: Vec<String>)
    ensures
        views(r@) == seq!["/mod/"@, "/api/sec/"@],
{
    let mut r: Vec<String> = Vec::new();
    r.push(String::from_str("/mod/"));
    r.push(String::from_str("/api/sec/"));
    assert(views(r@) =~= seq!["/mod/"@, "/api/sec/"@]);
    r
}

/// How often expired sessions are purged from storage: every minute.
pub fn session_cleanup_interval() -> (r: Span)
    ensures
        r.nanos == 60 * 1000000000,
{
    Span::from_secs(60)
}

impl SessionConfig {
    /// The cookie lives a quarter longer than the session timeout, in
    /// seconds (`(timeout + timeout / 4) as i64`).
    pub fn cookie_max_age(&self) -> (r: i64)
        requires
            self.timeout_seconds + self.timeout_seconds / 4 <= u64::MAX,
        ensures
            r == (self.timeout_seconds + self.timeout_seconds / 4) as i64,
    {
        let t = self.timeout_seconds;
        assert(t >> 2u64 == t / 4) by (bit_vector);
        let age = t + (t >> 2);
        age as i64
    }

    /// The cookie is marked secure unless configured otherwise.
    pub fn cookie_secure(&self) -> (r: bool)
        ensures
            r == !self.cookie_insecure,
    {
        !self.cookie_insecure
    }

    /// Sessions stay stored at least this long.
    pub fn minimum_expiry(&self) -> (r: Span)
        ensures
            r.nanos == self.timeout_seconds * 1000000000,
            r.wf(),
    {
        Span::from_secs(self.timeout_seconds)
    }
}

} // verus!
