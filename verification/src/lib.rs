//! A workspace/hierarchy engine for a dashboard sidebar: per-workspace trees
//! of folders and leaf items, fold-state mutation, path addressing, depth-first
//! flattening into display rows, and a deduplicated registry of open tabs.

pub mod controller;
pub mod dashboard;
pub mod filters;
pub mod model;
pub mod paths;
pub mod strings;
pub mod tables;
pub mod tabs;
pub mod translators;
pub mod workspaces;

pub use paths::id_to_path;
