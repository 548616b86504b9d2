//! Command discovery for Tauri workspaces: the logic that turns Rust sources,
//! manifests and generated command lists into the command paths handed to
//! Tauri's invoke handler.

pub mod text;
pub mod rust_source;
pub mod path;
pub mod types;
pub mod order;
pub mod scan;
pub mod commands;
pub mod listing;
pub mod workspace;
pub mod logging;
pub mod laws;
pub mod behaviour;
