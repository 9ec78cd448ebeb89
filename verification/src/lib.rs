//! Review model of pull-request-sized Git diffs: parsing of Git's machine
//! output and unified diffs, review state, and the state transitions of the
//! review workspace.
pub mod text;
pub mod path;
pub mod diff;
pub mod worktree;
pub mod cli;
pub mod git;
pub mod review;
pub mod app;
pub mod ui;
