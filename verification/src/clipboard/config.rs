//! Settings of the clipboard domain.
use vstd::prelude::*;

verus! {

/// Settings of the clipboard domain.
#[derive(Debug, Clone)]
pub struct Config {
    /// Most entries the history keeps.
    pub history_size: usize,
    /// Also watch the primary selection (middle-click paste).
    pub watch_primary: bool,
    /// Polling interval in milliseconds, when events are not available.
    pub poll_interval_ms: u64,
    /// Watch for clipboard events rather than poll.
    pub event_driven: bool,
    /// Keep the history on disk.
    pub persistent: bool,
    /// Largest entry, in bytes.
    pub max_entry_size: u64,
    /// Directory of the persistent store.
    pub data_dir: Option<String>,
}

impl Default for Config {
    fn default() -> (c: Self)
        ensures
            c.history_size == 100,
            !c.watch_primary,
            c.poll_interval_ms == 50,
            c.event_driven,
            c.persistent,
            c.max_entry_size == 5 * 1024 * 1024,
            c.data_dir is None,
    {
        Config {
            history_size: 100,
            watch_primary: false,
            poll_interval_ms: 50,
            event_driven: true,
            persistent: true,
            max_entry_size: 5 * 1024 * 1024,
            data_dir: None,
        }
    }
}

} // verus!
