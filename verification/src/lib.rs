//! Verified core of the mod explorer: the mod index built from the mods
//! folder, version ordering, request-path checks, the login/session rules and
//! the small text builders the web front end relies on.

pub mod attribution;
pub mod auth;
pub mod encode;
pub mod file_tree;
pub mod files;
pub mod highlight;
pub mod links;
pub mod mod_index;
pub mod naming;
pub mod span;
pub mod text;
pub mod theme;
pub mod text_map;
pub mod version;
