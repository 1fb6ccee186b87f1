//! Plugin registry reconciliation: the registry model, its canonical
//! fingerprint, the diff between two registries and the dispatcher that
//! replays a diff as a fail-fast batch of lifecycle operations.

pub mod bootstrap;
pub mod commands;
pub mod config_loader;
pub mod diff;
pub mod error;
pub mod event_dispatcher;
pub mod persisted;
pub mod plugin;
pub mod registry;
pub mod registry_snapshot;
pub mod text;
pub mod utils;
pub mod watcher;
