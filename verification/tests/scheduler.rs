use crawlds::scheduler::{BlockingScheduler, Scheduler, ShouldRun, TaskState};

/// Jitter of `pct` of an interval, in milliseconds.
fn jitter_ms(interval_ms: u64, pct: f32) -> u64 {
    (interval_ms as f64 * pct as f64) as u64
}

#[test]
fn test_task_state_initial() {
    let task = TaskState::new("test", 1000, jitter_ms(1000, 0.1));
    assert!(matches!(task.should_run(), ShouldRun::Yes));
}

#[test]
fn test_task_state_after_mark_ran() {
    let mut task = TaskState::new("test", 1000, jitter_ms(1000, 0.0));
    task.mark_ran();
    assert!(matches!(task.should_run(), ShouldRun::No));
}

#[test]
fn test_register() {
    let mut scheduler = Scheduler::new();
    scheduler.register("test", 1000, jitter_ms(1000, 0.1));
    assert_eq!(scheduler.task_count(), 1);
}

#[test]
fn test_should_run() {
    let mut scheduler = Scheduler::new();
    scheduler.register("test", 1000, jitter_ms(1000, 0.1));
    assert!(matches!(scheduler.should_run("test"), ShouldRun::Yes));
}

#[test]
fn test_mark_ran() {
    let mut scheduler = Scheduler::new();
    scheduler.register("test", 1000, jitter_ms(1000, 0.0));
    scheduler.mark_ran("test");
    assert!(matches!(scheduler.should_run("test"), ShouldRun::No));
}

#[test]
fn test_unregister() {
    let mut scheduler = Scheduler::new();
    scheduler.register("test", 1000, jitter_ms(1000, 0.1));
    scheduler.unregister("test");
    assert_eq!(scheduler.task_count(), 0);
}

#[test]
fn unknown_tasks_are_due() {
    let scheduler = Scheduler::new();
    assert!(matches!(scheduler.should_run_at("missing", 0), ShouldRun::Yes));
    let mut blocking = BlockingScheduler::new();
    assert!(!blocking.should_run("missing"));
    blocking.register("test", 1000, 0);
    assert!(blocking.should_run("test"));
    blocking.mark_ran("test");
    assert!(!blocking.should_run("test"));
    let mut s = Scheduler::new();
    s.register("test", 1000, 0);
    s.mark_ran("test");
    s.reset("test");
    assert!(matches!(s.should_run("test"), ShouldRun::Yes));
    assert_eq!(s.tasks(), vec!["test"]);
}

#[test]
fn task_timing_at_given_times() {
    let mut t = TaskState::new_at("sysmon", 1000, 50, 10_000);
    assert_eq!(t.should_run_at(10_000), ShouldRun::Yes);
    assert_eq!(t.last_run_ms, 9_000);
    t.mark_ran_at(10_000, 30);
    assert_eq!(t.next_run_ms, 11_030);
    assert_eq!(t.should_run_at(10_999), ShouldRun::No);
    assert_eq!(t.should_run_at(11_030), ShouldRun::Yes);
    t.reset_at(10_500);
    assert_eq!(t.should_run_at(10_500), ShouldRun::Yes);
    let early = TaskState::new_at("x", 5000, 0, 100);
    assert_eq!(early.last_run_ms, 0);
}

#[test]
fn registry_replaces_and_reports() {
    let mut s = BlockingScheduler::new();
    s.register("a", 1000, 0);
    s.register("b", 1000, 0);
    s.register("a", 2000, 0);
    assert_eq!(s.task_count(), 2);
    assert_eq!(s.tasks(), vec!["a", "b"]);
    s.mark_ran_at("a", 10_000, 0);
    assert!(!s.should_run_at("a", 11_999));
    assert!(s.should_run_at("a", 12_000));
    s.reset_at("a", 11_000);
    assert!(s.should_run_at("a", 11_000));
    assert!(!s.should_run("missing"));
}
