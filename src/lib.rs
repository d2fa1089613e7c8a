//! Project synchronisation engine for mod workspaces: manifest model,
//! properties merging, dependency reconciliation, copy build graphs and the
//! decisions that drive a full or incremental sync.
pub mod commands;
pub mod deps;
pub mod eclipse;
pub mod error;
pub mod graph;
pub mod manifest;
pub mod project;
pub mod properties;
pub mod sync;
pub mod template;
pub mod text;
pub mod walk;
