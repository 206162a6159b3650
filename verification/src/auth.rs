//! Login through the Factorio OAuth2 provider and the session rules.

pub mod config;
pub mod endpoints;
pub mod guard;
pub mod profile;
pub mod provider;
pub mod session;
