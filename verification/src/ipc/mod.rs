//! Shared data types, event models and the error envelope of the daemon's API.
pub mod error;
pub mod events;
pub mod types;
