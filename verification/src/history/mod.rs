//! Deterministic path filters over history.
//!
//! A view is a repository that is nothing but a function of a larger one's
//! history: the history restricted to a path. Deriving computes it, lifting is
//! the inverse, and a history that was injected under a path comes back out
//! with the ids it had.
//!
//! Everything here works on objects held in memory. An object that is needed
//! and not there is reported by its id, and what is produced is kept with the
//! objects, so that a caller can move both from and to a repository.
pub mod cache;
pub mod cache_laws;
pub mod commits;
pub mod derive;
pub mod error;
pub mod filter;
pub mod graft_laws;
pub mod laws;
pub mod lift;
pub mod lift_laws;
pub mod store;
pub mod tables;
pub mod tip_laws;
pub mod view_laws;
pub mod walk;
