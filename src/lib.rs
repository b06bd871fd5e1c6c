//! Lifecycle management of long-running game server processes: a registry of
//! server definitions, the decisions of starting, polling and stopping their
//! processes, bounded in-memory logs, and the checkpoints of a cancellable
//! runtime install.

pub mod cancel;
pub mod config;
pub mod i18n;
pub mod install;
pub mod log_buffer;
pub mod manager;
pub mod players;
pub mod server;
pub mod settings;
pub mod text;
pub mod update;
pub mod version;
