use crawlds::process::{
    find_by_name, kill_outcome, kill_signal, lists_by_memory, proc_tick, rank_by_memory,
    watch_outcome, Config, KillSignal, ProcError,
};

#[test]
fn default_monitor_settings() {
    let c = Config::default();
    assert_eq!(c.default_sort, "cpu");
    assert_eq!(c.default_top, 30);
    assert!(!c.include_cmd);
    assert_eq!(c.top_interval_ms, 1000);
    assert_eq!(c.full_interval_ms, 5000);
}

#[test]
fn monitor_tick_runs_due_refreshes() {
    let c = Config::default();
    let t = proc_tick(&c, 10_000, 5_000, 9_500);
    assert!(t.full_scan);
    assert!(!t.top_update);
    assert_eq!(t.last_full_ms, 10_000);
    assert_eq!(t.last_top_ms, 9_500);
    let t = proc_tick(&c, 10_000, 6_000, 9_000);
    assert!(!t.full_scan);
    assert!(t.top_update);
    assert_eq!(t.last_full_ms, 6_000);
    assert_eq!(t.last_top_ms, 10_000);
    let t = proc_tick(&c, 100, 200, 200);
    assert!(!t.full_scan && !t.top_update);
}

#[test]
fn ranks_by_memory_largest_first() {
    let mem = [300, 1200, 50, 1200, 700];
    assert_eq!(rank_by_memory(&mem, 100), vec![1, 3, 4, 0, 2]);
    assert_eq!(rank_by_memory(&mem, 2), vec![1, 3]);
    assert_eq!(rank_by_memory(&mem, 0), Vec::<usize>::new());
    assert_eq!(rank_by_memory(&[], 10), Vec::<usize>::new());
}

#[test]
fn finds_processes_by_name_ignoring_case() {
    let names = vec!["Firefox".to_string(), "bash".to_string(), "firefox-bin".to_string()];
    assert_eq!(find_by_name(&names, "FIRE"), vec![0, 2]);
    assert_eq!(find_by_name(&names, "sh"), vec![1]);
    assert_eq!(find_by_name(&names, ""), vec![0, 1, 2]);
    assert_eq!(find_by_name(&names, "zsh"), Vec::<usize>::new());
}

#[test]
fn memory_listing_only_for_mem() {
    assert!(lists_by_memory("mem"));
    assert!(!lists_by_memory("cpu"));
    assert!(!lists_by_memory("pid"));
}

#[test]
fn kill_request_outcomes() {
    assert_eq!(kill_signal(true), KillSignal::Kill);
    assert_eq!(kill_signal(false), KillSignal::Term);
    assert!(matches!(kill_outcome(42, false, None), Err(ProcError::NotFound(42))));
    assert!(matches!(kill_outcome(42, true, None), Err(ProcError::SignalFailed(ref m)) if m == "kill(42) failed"));
    assert!(kill_outcome(42, true, Some(true)).is_ok());
    assert!(kill_outcome(42, true, Some(false)).is_ok());
}

#[test]
fn watch_outcome_needs_a_name() {
    assert_eq!(watch_outcome(7, Some("sleep".to_string())).ok(), Some("sleep".to_string()));
    assert!(matches!(watch_outcome(7, Some(String::new())), Err(ProcError::NotFound(7))));
    assert!(matches!(watch_outcome(7, None), Err(ProcError::NotFound(7))));
}
