//! A structural difference engine: walks two trees of named program entities
//! side by side and reports the first place where they diverge.
pub mod path;
pub mod diff;
pub mod laws;
pub mod program;
pub mod user_attributes;
pub mod attribute;
