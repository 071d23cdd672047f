//! Verified building blocks: a canonical encoder, path-filtered history, a
//! prompt, and a lazy expression evaluator.

pub mod canon;
pub mod canon_copy;
pub mod commands;
pub mod history;
pub mod lang;
pub mod launch;
pub mod prompt;
pub mod text;
pub mod typescript;
