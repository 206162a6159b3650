//! What a login session holds.

use vstd::prelude::*;
use crate::auth::provider::Token;

verus! {

/// The key the session data is stored under in the session.
pub fn session_key() -> (r: &'static str)
    ensures
        r@ == "auth"@,
{
    "auth"
}

/// A session: the provider's token and what may be shown of the user.
pub struct SessionData {
    pub token: Token,
    pub public_data: SessionPublic,
}

/// A mod on the portal, as the user's profile lists it.
#[derive(Clone, Debug, PartialEq, Eq)]
pub struct ModInfo {
    pub downloads_count: u32,
    pub id: String,
    pub name: String,
    pub title: String,
}

/// What the pages may show of the logged-in user.
#[derive(Clone, Debug, PartialEq, Eq)]
pub struct SessionPublic {
    pub username: String,
    pub avatar_url: String,
    pub mods: Vec<ModInfo>,
    pub mods_collaborated: Vec<ModInfo>,
}

} // verus!
