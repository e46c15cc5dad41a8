//! Process monitoring and control: when the monitor rescans, how it ranks
//! and searches processes, why a request on a process failed, and which
//! signal ends it.
use vstd::prelude::*;
use crate::order::{key_before, listed_index, rank_desc, ranked_desc};
use crate::text::{
    append_chars, chars_of, contains, contains_seq, decimal, lowercase, same_text, string_of,
    to_lowercase, u64_to_decimal,
};

verus! {

/// Why a request on a process failed.
#[derive(Debug, Clone)]
pub enum ProcError {
    NotFound(u32),
    PermissionDenied(u32),
    SignalFailed(String),
}

/// The signal that ends a process.
#[derive(Debug, Clone, Copy, PartialEq, Eq, Structural)]
pub enum KillSignal {
    /// `SIGTERM`: asks the process to exit.
    Term,
    /// `SIGKILL`: ends it at once.
    Kill,
}

/// `SIGKILL` when forced, `SIGTERM` otherwise.
pub fn kill_signal(force: bool) -> (s: KillSignal)
    ensures
        s == if force {
            KillSignal::Kill
        } else {
            KillSignal::Term
        },
{
    if force {
        KillSignal::Kill
    } else {
        KillSignal::Term
    }
}

/// The outcome of watching a process: its name once it exited, or
/// `NotFound` when it was not running or has no name.
pub fn watch_outcome(pid: u32, name: Option<String>) -> (r: Result<String, ProcError>)
    ensures
        match name {
            Some(n) => if n@.len() > 0 {
                r == Ok::<String, ProcError>(n)
            } else {
                r == Err::<String, ProcError>(ProcError::NotFound(pid))
            },
            None => r == Err::<String, ProcError>(ProcError::NotFound(pid)),
        },
{
    match name {
        Some(n) => {
            if crate::text::chars_of(n.as_str()).len() > 0 {
                Ok(n)
            } else {
                Err(ProcError::NotFound(pid))
            }
        },
        None => Err(ProcError::NotFound(pid)),
    }
}


/// Settings of the process monitor.
#[derive(Debug, Clone)]
pub struct Config {
    /// Default sort field: `cpu`, `mem`, `pid` or `name`.
    pub default_sort: String,
    /// Default number of top processes to return.
    pub default_top: usize,
    /// Whether process information carries the command line.
    pub include_cmd: bool,
    /// Interval of the top-N update, in milliseconds.
    pub top_interval_ms: u64,
    /// Interval of the full scan, in milliseconds.
    pub full_interval_ms: u64,
}

impl Default for Config {
    fn default() -> (c: Self)
        ensures
            c.default_sort@ == "cpu"@,
            c.default_top == 30,
            !c.include_cmd,
            c.top_interval_ms == 1000,
            c.full_interval_ms == 5000,
    {
        Config {
            default_sort: string_of(chars_of("cpu").as_slice()),
            default_top: 30,
            include_cmd: false,
            top_interval_ms: 1000,
            full_interval_ms: 5000,
        }
    }
}

/// At least `interval_ms` have passed since `last_ms` (a monotonic clock
/// never runs backwards, so an earlier `now_ms` counts as no time).
pub open spec fn interval_elapsed(last_ms: u64, now_ms: u64, interval_ms: u64) -> bool {
    (if now_ms >= last_ms {
        now_ms - last_ms
    } else {
        0
    }) >= interval_ms
}

fn elapsed_at_least(last_ms: u64, now_ms: u64, interval_ms: u64) -> (b: bool)
    ensures
        b == interval_elapsed(last_ms, now_ms, interval_ms),
{
    let d: u64 = if now_ms >= last_ms {
        now_ms - last_ms
    } else {
        0
    };
    d >= interval_ms
}

/// What one pass of the monitor loop does, and when each refresh last ran after it.
#[derive(Debug, Clone, Copy)]
pub struct ProcTick {
    pub full_scan: bool,
    pub top_update: bool,
    pub last_full_ms: u64,
    pub last_top_ms: u64,
}

/// One pass of the monitor loop: a full scan when its interval ran out
/// since the last one, a top-N update likewise.
pub fn proc_tick(cfg: &Config, now_ms: u64, last_full_ms: u64, last_top_ms: u64) -> (t: ProcTick)
    ensures
        t.full_scan == interval_elapsed(last_full_ms, now_ms, cfg.full_interval_ms),
        t.top_update == interval_elapsed(last_top_ms, now_ms, cfg.top_interval_ms),
        t.last_full_ms == if t.full_scan {
            now_ms
        } else {
            last_full_ms
        },
        t.last_top_ms == if t.top_update {
            now_ms
        } else {
            last_top_ms
        },
{
    let full_scan = elapsed_at_least(last_full_ms, now_ms, cfg.full_interval_ms);
    let top_update = elapsed_at_least(last_top_ms, now_ms, cfg.top_interval_ms);
    ProcTick {
        full_scan,
        top_update,
        last_full_ms: if full_scan {
            now_ms
        } else {
            last_full_ms
        },
        last_top_ms: if top_update {
            now_ms
        } else {
            last_top_ms
        },
    }
}

/// The processes ranked by resident memory, largest first (equal amounts in
/// the order given), cut to the first `limit`: the indices of the top
/// processes, and every process left out ranks after all that are listed.
pub fn rank_by_memory(mem_rss_kb: &[u64], limit: usize) -> (r: Vec<usize>)
    ensures
        r@.len() == if limit < mem_rss_kb@.len() {
            limit as int
        } else {
            mem_rss_kb@.len() as int
        },
        ranked_desc(mem_rss_kb@, r@),
        forall|k: int|
            0 <= k < mem_rss_kb@.len() && !listed_index(r@, k) ==> forall|i: int|
                0 <= i < r@.len() ==> key_before(mem_rss_kb@, #[trigger] r@[i] as int, k),
{
    rank_desc(mem_rss_kb, limit)
}

/// The process's name holds the searched name, both lower-cased.
pub open spec fn name_matches(name: Seq<char>, query: Seq<char>) -> bool {
    contains(lowercase(name), lowercase(query))
}

/// The indices, in order, of the first `n` names that match the query.
pub open spec fn matching_indices(names: Seq<String>, query: Seq<char>, n: int) -> Seq<usize>
    decreases n,
{
    if n <= 0 {
        Seq::empty()
    } else if name_matches(names[n - 1]@, query) {
        matching_indices(names, query, n - 1).push((n - 1) as usize)
    } else {
        matching_indices(names, query, n - 1)
    }
}

/// The processes (by index into `names`) whose name holds `name`, ignoring case.
pub fn find_by_name(names: &[String], name: &str) -> (r: Vec<usize>)
    ensures
        r@ == matching_indices(names@, name@, names@.len() as int),
{
    let q = to_lowercase(name);
    let qc = chars_of(q.as_str());
    let mut out: Vec<usize> = Vec::new();
    let mut i: usize = 0;
    while i < names.len()
        invariant
            0 <= i <= names@.len(),
            qc@ == lowercase(name@),
            out@ == matching_indices(names@, name@, i as int),
        decreases names@.len() - i,
    {
        let low = to_lowercase(names[i].as_str());
        if contains_seq(chars_of(low.as_str()).as_slice(), qc.as_slice()) {
            out.push(i);
        }
        i = i + 1;
    }
    out
}

/// A listing sorted by `mem` comes from the memory ranking; any other sort
/// field gets the CPU ranking.
pub fn lists_by_memory(sort_by: &str) -> (b: bool)
    ensures
        b == (sort_by@ == "mem"@),
{
    same_text(sort_by, "mem")
}

/// The outcome of asking to signal a process: `NotFound` when no such
/// process runs, `SignalFailed` when the signal could not be sent, and
/// success otherwise (`delivered` is what sending reported, `None` when it
/// could not be sent).
pub fn kill_outcome(pid: u32, found: bool, delivered: Option<bool>) -> (r: Result<(), ProcError>)
    ensures
        !found ==> r == Err::<(), ProcError>(ProcError::NotFound(pid)),
        found && delivered is None ==> (r matches Err(ProcError::SignalFailed(m)) && m@ == "kill("@
            + decimal(pid as nat) + ") failed"@),
        found && delivered is Some ==> r == Ok::<(), ProcError>(()),
{
    if !found {
        return Err(ProcError::NotFound(pid));
    }
    match delivered {
        Some(_) => Ok(()),
        None => {
            let mut m = chars_of("kill(");
            append_chars(&mut m, u64_to_decimal(pid as u64).as_slice());
            append_chars(&mut m, chars_of(") failed").as_slice());
            Err(ProcError::SignalFailed(string_of(m.as_slice())))
        },
    }
}

} // verus!
