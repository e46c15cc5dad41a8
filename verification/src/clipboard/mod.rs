//! Clipboard history: the settings, the in-memory history with hash
//! deduplication, and the persistent store with its binary record format.
pub mod config;
pub mod history;
pub mod storage;
pub mod listener;
