//! The user's profiles on factorio.com and on the mod portal.

use vstd::prelude::*;
use crate::auth::session::{ModInfo, SessionPublic};
use vstd::std_specs::convert::FromSpecImpl;

verus! {

/// Why a profile could not be had.
#[derive(Clone, Copy, Debug, PartialEq, Eq, Structural)]
pub enum ProfileFetchError {
    RequestFailed,
    ParseFailed,
}

impl ProfileFetchError {
    /// The text the error is shown with.
    pub open spec fn message_text(self) -> Seq<char> {
        match self {
            ProfileFetchError::RequestFailed => "Failed to fetch profile: HTTP request failed"@,
            ProfileFetchError::ParseFailed => "Failed to parse profile response"@,
        }
    }

    /// The text the error is shown with (its `Display`).
    pub fn message(&self) -> (r: String)
        ensures
            r@ == self.message_text(),
    {
        match self {
            ProfileFetchError::RequestFailed => String::from_str(
                "Failed to fetch profile: HTTP request failed",
            ),
            ProfileFetchError::ParseFailed => String::from_str("Failed to parse profile response"),
        }
    }
}

/// Where the factorio.com profile is fetched from.
pub fn main_profile_endpoint() -> (r: &'static str)
    ensures
        r@ == "https://factorio.com/api/profile"@,
{
    "https://factorio.com/api/profile"
}

/// Where the mod portal profile is fetched from.
pub fn mod_portal_profile_endpoint() -> (r: &'static str)
    ensures
        r@ == "https://mods.factorio.com/api/profile"@,
{
    "https://mods.factorio.com/api/profile"
}

/// The factorio.com profile.
#[derive(Clone, Debug, PartialEq, Eq)]
pub struct MainProfile {
    pub account_created_at: String,
    pub account_upgraded_at: Option<String>,
    pub game_ownership: bool,
    pub id: String,
    pub memberships: Vec<String>,
    pub steam_id_connected: bool,
    pub username: String,
}

/// The mod portal profile; `avatar_url` is the avatar's URL text.
#[derive(Clone, Debug, PartialEq, Eq)]
pub struct ModPortalProfile {
    pub avatar_url: String,
    pub id: String,
    pub mods: Vec<ModInfo>,
    pub mods_collaborated: Vec<ModInfo>,
    pub username: String,
}

impl From<ModPortalProfile> for SessionPublic {
    fn from(value: ModPortalProfile) -> (r: Self) {
        SessionPublic {
            username: value.username,
            avatar_url: value.avatar_url,
            mods: value.mods,
            mods_collaborated: value.mods_collaborated,
        }
    }
}

impl FromSpecImpl<ModPortalProfile> for SessionPublic {
    open spec fn obeys_from_spec() -> bool {
        true
    }

    open spec fn from_spec(v: ModPortalProfile) -> Self {
        SessionPublic {
            username: v.username,
            avatar_url: v.avatar_url,
            mods: v.mods,
            mods_collaborated: v.mods_collaborated,
        }
    }
}

} // verus!
