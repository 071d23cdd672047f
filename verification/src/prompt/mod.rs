//! The version-control segment of a shell prompt.
pub mod git;
pub mod jj;
pub mod laws;
pub mod render;
pub mod survey;
pub mod views;
