//! The daemon: its configuration sections and the clipboard history it keeps
//! for its clients.
pub mod config;
pub mod state;
pub mod settings;
pub mod connection;
