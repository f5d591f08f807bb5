//! Managing the worktrees of one repository: the inventory the backend reports, paths
//! and names under a base directory, resolution of targets, plans for adding and removing
//! worktrees, listings, and post-create hooks.
use vstd::prelude::*;

pub mod error;
pub mod text;
pub mod paths;
pub mod inventory;
pub mod names;
pub mod order;
pub mod resolve;
pub mod config;
pub mod repo;
pub mod cli;
pub mod add;
pub mod runner;
pub mod remove;
pub mod list;
pub mod hooks;
pub mod shell;
