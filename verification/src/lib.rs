//! `wk`: keeps gitignored AI and local files available across git worktrees.
//!
//! The library holds the planning logic: path validation, drift classification,
//! per-entry sync planning, mode transitions and status reporting. Reading and
//! writing the filesystem, running git and prompting live outside the library,
//! which hands plain observations to these planners and executes what they return.
pub mod cli;
pub mod commands;
pub mod config;
pub mod discovery;
pub mod domain;
pub mod drift;
pub mod error;
pub mod fs_plan;
pub mod git_repo;
pub mod keyed;
pub mod laws;
pub mod manifest;
pub mod materialize;
pub mod mode_plan;
pub mod pathops;
pub mod state;
pub mod status;
pub mod sync_plan;
pub mod text;
pub mod ui;
