//! The login and callback routes: their queries and their answers.

use vstd::prelude::*;
use crate::auth::profile::{MainProfile, ProfileFetchError};
use crate::auth::provider::OauthError;
use crate::text::{has_prefix, opt_view, text_starts_with};

verus! {

/// Where to go after the login, when it is a path on this site.
#[derive(Clone, Debug, PartialEq, Eq)]
pub struct SafeNext(pub String);

/// A path on this site: starts with `/` but not with `//` (which would name
/// another host).
pub open spec fn is_local_path(p: Seq<char>) -> bool {
    has_prefix(p, "/"@) && !has_prefix(p, "//"@)
}

impl SafeNext {
    /// Keeps a local path; anything else becomes `/`.
    pub fn from_path(path: String) -> (r: SafeNext)
        ensures
            is_local_path(path@) ==> r.0@ == path@,
            !is_local_path(path@) ==> r.0@ == "/"@,
            is_local_path(r.0@),
    {
        proof {
            reveal_strlit("/");
            reveal_strlit("//");
            assert("/"@.take(1) =~= "/"@);
        }
        let safe = text_starts_with(path.as_str(), "/") && !text_starts_with(path.as_str(), "//");
        if safe {
            SafeNext(path)
        } else {
            SafeNext(String::from_str("/"))
        }
    }
}

/// The login route's query.
#[derive(Clone, Debug, PartialEq, Eq)]
pub struct LoginQuery {
    pub next: Option<SafeNext>,
}

impl LoginQuery {
    /// Where to go after the login, if the query says.
    pub fn destination(self) -> (r: Option<String>)
        ensures
            opt_view(r) == match self.next {
                Some(n) => Some(n.0@),
                None => None,
            },
    {
        match self.next {
            Some(n) => Some(n.0),
            None => None,
        }
    }
}

/// The provider's callback query.
#[derive(Clone, Debug, PartialEq, Eq)]
pub struct CallbackQuery {
    pub code: String,
    pub state: String,
}

/// Why the callback could not log the user in.
#[derive(Clone, Copy, Debug, PartialEq, Eq, Structural)]
pub enum CallbackError {
    /// The code could not be exchanged for a token.
    Exchange(OauthError),
    /// A profile could not be fetched.
    Profile(ProfileFetchError),
    /// The account does not own the game.
    NoGameOwnership,
    /// The session could not be stored.
    SessionStore,
}

impl CallbackError {
    /// The HTTP status of the answer.
    pub open spec fn status_code(self) -> u16 {
        match self {
            CallbackError::NoGameOwnership => 403,
            _ => 500,
        }
    }

    /// The text of the answer.
    pub open spec fn message_text(self) -> Seq<char> {
        match self {
            CallbackError::Exchange(e) => e.message_text(),
            CallbackError::Profile(e) => e.message_text(),
            CallbackError::NoGameOwnership => "You do not have ownership of the game and thus also no access to the mod portal!"@,
            CallbackError::SessionStore => "Failed to create session"@,
        }
    }

    /// The HTTP status of the answer: 403 when the game is not owned, 500
    /// otherwise.
    pub fn status(&self) -> (r: u16)
        ensures
            r == self.status_code(),
    {
        match self {
            CallbackError::NoGameOwnership => 403,
            _ => 500,
        }
    }

    /// The text of the answer.
    pub fn message(&self) -> (r: String)
        ensures
            r@ == self.message_text(),
    {
        match self {
            CallbackError::Exchange(e) => e.message(),
            CallbackError::Profile(e) => e.message(),
            CallbackError::NoGameOwnership => String::from_str(
                "You do not have ownership of the game and thus also no access to the mod portal!",
            ),
            CallbackError::SessionStore => String::from_str("Failed to create session"),
        }
    }
}

/// Only owners of the game get access to the mod portal.
pub fn check_game_ownership(profile: &MainProfile) -> (r: Result<(), CallbackError>)
    ensures
        profile.game_ownership <==> r is Ok,
        r is Err ==> r == Err::<(), CallbackError>(CallbackError::NoGameOwnership),
{
    if profile.game_ownership {
        Ok(())
    } else {
        Err(CallbackError::NoGameOwnership)
    }
}

/// Where the callback sends the browser: the flow's destination, else `/`.
pub fn callback_destination(next: Option<String>) -> (r: String)
    ensures
        r@ == match next {
            Some(t) => t@,
            None => "/"@,
        },
{
    match next {
        Some(t) => t,
        None => String::from_str("/"),
    }
}

/// Where a login callback stands; each stage keeps the page the login is
/// to return to.
pub enum CallbackStage {
    /// The provider's code is being exchanged for a token.
    Exchanging,
    /// The account's main profile is being fetched.
    FetchingMainProfile { destination: Option<String> },
    /// The account's mod portal profile is being fetched.
    FetchingPortalProfile { destination: Option<String> },
    /// The session is being stored.
    StoringSession { destination: Option<String> },
}

/// What the outside work of a callback stage gave.
pub enum CallbackEvent {
    /// The code exchange: the login's page to return to, or why it failed.
    Exchanged(Result<Option<String>, OauthError>),
    /// The main profile, or why it could not be had.
    MainProfileFetched(Result<MainProfile, ProfileFetchError>),
    /// Whether the mod portal profile could be had.
    PortalProfileFetched(Result<(), ProfileFetchError>),
    /// Whether the session was stored.
    SessionStored(bool),
}

/// What the callback does next.
#[derive(Debug, PartialEq, Eq)]
pub enum CallbackAction {
    FetchMainProfile,
    FetchPortalProfile,
    StoreSession,
    /// Answer with the refusal.
    Refuse(CallbackError),
    /// Send the browser to this page.
    Redirect(String),
}

/// The event is the outcome of the stage's work.
pub open spec fn event_fits(stage: CallbackStage, event: CallbackEvent) -> bool {
    match stage {
        CallbackStage::Exchanging => event is Exchanged,
        CallbackStage::FetchingMainProfile { .. } => event is MainProfileFetched,
        CallbackStage::FetchingPortalProfile { .. } => event is PortalProfileFetched,
        CallbackStage::StoringSession { .. } => event is SessionStored,
    }
}

/// One step of a login callback: exchange the code, fetch the main profile
/// and refuse an account without the game, fetch the portal profile, store
/// the session, then send the browser to the login's page (`/` when it has
/// none). The first failure is answered with its refusal and ends the
/// callback.
pub fn callback_step(stage: CallbackStage, event: CallbackEvent) -> (r: (
    Option<CallbackStage>,
    CallbackAction,
))
    requires
        event_fits(stage, event),
    ensures
        match (stage, event) {
            (CallbackStage::Exchanging, CallbackEvent::Exchanged(res)) => match res {
                Err(e) => r.0 is None && r.1 == CallbackAction::Refuse(CallbackError::Exchange(e)),
                Ok(d) => r.0 matches Some(CallbackStage::FetchingMainProfile { destination })
                    && opt_view(destination) == opt_view(d) && r.1 == CallbackAction::FetchMainProfile,
            },
            (
                CallbackStage::FetchingMainProfile { destination: d },
                CallbackEvent::MainProfileFetched(res),
            ) => match res {
                Err(e) => r.0 is None && r.1 == CallbackAction::Refuse(CallbackError::Profile(e)),
                Ok(p) => if p.game_ownership {
                    r.0 matches Some(CallbackStage::FetchingPortalProfile { destination })
                        && opt_view(destination) == opt_view(d) && r.1
                        == CallbackAction::FetchPortalProfile
                } else {
                    r.0 is None && r.1 == CallbackAction::Refuse(CallbackError::NoGameOwnership)
                },
            },
            (
                CallbackStage::FetchingPortalProfile { destination: d },
                CallbackEvent::PortalProfileFetched(res),
            ) => match res {
                Err(e) => r.0 is None && r.1 == CallbackAction::Refuse(CallbackError::Profile(e)),
                Ok(_) => r.0 matches Some(CallbackStage::StoringSession { destination })
                    && opt_view(destination) == opt_view(d) && r.1 == CallbackAction::StoreSession,
            },
            (CallbackStage::StoringSession { destination: d }, CallbackEvent::SessionStored(ok)) => if ok {
                &&& r.0 is None
                &&& r.1 matches CallbackAction::Redirect(to) && to@ == match d {
                    Some(t) => t@,
                    None => "/"@,
                }
            } else {
                r.0 is None && r.1 == CallbackAction::Refuse(CallbackError::SessionStore)
            },
            _ => false,
        },
{
    match (stage, event) {
        (CallbackStage::Exchanging, CallbackEvent::Exchanged(res)) => match res {
            Err(e) => (None, CallbackAction::Refuse(CallbackError::Exchange(e))),
            Ok(d) => (
                Some(CallbackStage::FetchingMainProfile { destination: d }),
                CallbackAction::FetchMainProfile,
            ),
        },
        (
            CallbackStage::FetchingMainProfile { destination },
            CallbackEvent::MainProfileFetched(res),
        ) => match res {
            Err(e) => (None, CallbackAction::Refuse(CallbackError::Profile(e))),
            Ok(p) => match check_game_ownership(&p) {
                Ok(()) => (
                    Some(CallbackStage::FetchingPortalProfile { destination }),
                    CallbackAction::FetchPortalProfile,
                ),
                Err(e) => (None, CallbackAction::Refuse(e)),
            },
        },
        (
            CallbackStage::FetchingPortalProfile { destination },
            CallbackEvent::PortalProfileFetched(res),
        ) => match res {
            Err(e) => (None, CallbackAction::Refuse(CallbackError::Profile(e))),
            Ok(()) => (
                Some(CallbackStage::StoringSession { destination }),
                CallbackAction::StoreSession,
            ),
        },
        (CallbackStage::StoringSession { destination }, CallbackEvent::SessionStored(ok)) => {
            if ok {
                (None, CallbackAction::Redirect(callback_destination(destination)))
            } else {
                (None, CallbackAction::Refuse(CallbackError::SessionStore))
            }
        },
        (_, _) => {
            assert(false);
            (None, CallbackAction::Refuse(CallbackError::SessionStore))
        },
    }
}

} // verus!
