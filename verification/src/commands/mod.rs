//! What the view commands decide and say. Talking to remotes and to the
//! object store is left to their callers.
pub mod anchor;
pub mod anchor_laws;
pub mod config;
pub mod github;
pub mod push;
pub mod push_laws;
pub mod pushing;
pub mod status;
