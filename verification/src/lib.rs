//! Verified core of a Git workspace browser: repository status models,
//! commit-graph layout, branch and remote decisions, batch bookkeeping, the
//! window's state machine and its Git operations, and the description of
//! what the window shows.

pub mod theme;
pub mod text;
pub mod models;
pub mod columns;
pub mod layout;
pub mod git_commands;
pub mod repo_logic;
pub mod batch;
pub mod rpc;
pub mod sets;
pub mod app_state;
pub mod sorting;
pub mod operations;
pub mod view_tree;
