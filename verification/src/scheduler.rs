//! Timing of periodic domain tasks: each task runs once per interval, with
//! a random delay of up to its jitter added after each run. Times are
//! milliseconds read from the clock.
use vstd::prelude::*;
use crate::clock::monotonic_ms;
use crate::text::same_text;

verus! {

/// Whether a task is due.
#[derive(Debug, Clone, Copy, PartialEq, Eq, Structural)]
pub enum ShouldRun {
    Yes,
    No,
}

/// The timing state of one task.
#[derive(Debug, Clone, Copy)]
pub struct TaskState {
    pub id: &'static str,
    pub interval_ms: u64,
    /// Largest random delay added after a run.
    pub jitter_ms: u64,
    pub next_run_ms: u64,
    pub last_run_ms: u64,
}

/// A random delay of at most `max_ms` (`fastrand::u64(0..=max_ms)`).
/// Nothing more is stated: the value is random.
#[verifier::external_body]
fn random_delay(max_ms: u64) -> (r: u64)
    ensures
        r <= max_ms,
{
    fastrand::u64(0..=max_ms)
}

// ── Specifications ──────────────────────────────────────────────────────────

/// The task is due at time `now`.
pub open spec fn is_due(t: TaskState, now: u64) -> bool {
    now >= t.next_run_ms
}

/// `a - b`, or 0 when `b` is larger.
pub open spec fn minus_floor(a: u64, b: u64) -> u64 {
    if a >= b {
        (a - b) as u64
    } else {
        0
    }
}

/// `a + b`, or `u64::MAX` when the sum does not fit.
pub open spec fn plus_capped(a: int, b: int) -> u64 {
    if a + b <= u64::MAX {
        (a + b) as u64
    } else {
        u64::MAX
    }
}

/// A task registered at `now`: due at once, last run one interval ago.
pub open spec fn fresh_task(id: &'static str, interval_ms: u64, jitter_ms: u64, now: u64) -> TaskState {
    TaskState {
        id,
        interval_ms,
        jitter_ms,
        next_run_ms: now,
        last_run_ms: minus_floor(now, interval_ms),
    }
}

/// `t` after it ran at `now` and drew the delay `delay`.
pub open spec fn ran_at(t: TaskState, now: u64, delay: u64) -> TaskState {
    TaskState {
        last_run_ms: now,
        next_run_ms: plus_capped(now + t.interval_ms, delay as int),
        ..t
    }
}

/// `t` made due again at `now`.
pub open spec fn reset_to(t: TaskState, now: u64) -> TaskState {
    TaskState { next_run_ms: now, last_run_ms: minus_floor(now, t.interval_ms), ..t }
}

impl TaskState {
    /// A task registered at `now_ms`; it is due at once.
    pub fn new_at(id: &'static str, interval_ms: u64, jitter_ms: u64, now_ms: u64) -> (t: Self)
        ensures
            t == fresh_task(id, interval_ms, jitter_ms, now_ms),
    {
        let last = if now_ms >= interval_ms {
            now_ms - interval_ms
        } else {
            0
        };
        TaskState { id, interval_ms, jitter_ms, next_run_ms: now_ms, last_run_ms: last }
    }

    /// A task registered now; it is due at once.
    pub fn new(id: &'static str, interval_ms: u64, jitter_ms: u64) -> (t: Self)
        ensures
            t.id == id,
            t.interval_ms == interval_ms,
            t.jitter_ms == jitter_ms,
            exists|now: u64| t == fresh_task(id, interval_ms, jitter_ms, now),
    {
        Self::new_at(id, interval_ms, jitter_ms, monotonic_ms())
    }

    pub fn should_run_at(&self, now_ms: u64) -> (r: ShouldRun)
        ensures
            r == if is_due(*self, now_ms) {
                ShouldRun::Yes
            } else {
                ShouldRun::No
            },
    {
        if now_ms >= self.next_run_ms {
            ShouldRun::Yes
        } else {
            ShouldRun::No
        }
    }

    /// Whether the task is due now.
    pub fn should_run(&self) -> (r: ShouldRun)
        ensures
            exists|now: u64|
                r == if is_due(*self, now) {
                    ShouldRun::Yes
                } else {
                    ShouldRun::No
                },
    {
        self.should_run_at(monotonic_ms())
    }

    /// Record a run at `now_ms`; the next one is due an interval plus
    /// `delay_ms` later.
    pub fn mark_ran_at(&mut self, now_ms: u64, delay_ms: u64)
        ensures
            *final(self) == ran_at(*old(self), now_ms, delay_ms),
    {
        let base: u64 = if now_ms <= u64::MAX - self.interval_ms {
            now_ms + self.interval_ms
        } else {
            u64::MAX
        };
        let next: u64 = if base <= u64::MAX - delay_ms {
            base + delay_ms
        } else {
            u64::MAX
        };
        proof {
            assert(next == plus_capped(now_ms + self.interval_ms, delay_ms as int));
        }
        self.last_run_ms = now_ms;
        self.next_run_ms = next;
    }

    /// Record a run now, with a random delay of up to the jitter.
    pub fn mark_ran(&mut self)
        ensures
            exists|now: u64, delay: u64|
                delay <= old(self).jitter_ms && *final(self) == ran_at(*old(self), now, delay),
    {
        let now = monotonic_ms();
        let delay = if self.jitter_ms == 0 {
            0
        } else {
            random_delay(self.jitter_ms)
        };
        self.mark_ran_at(now, delay);
    }

    /// Make the task due at `now_ms`.
    pub fn reset_at(&mut self, now_ms: u64)
        ensures
            *final(self) == reset_to(*old(self), now_ms),
    {
        self.next_run_ms = now_ms;
        self.last_run_ms = if now_ms >= self.interval_ms {
            now_ms - self.interval_ms
        } else {
            0
        };
    }

    /// Make the task due now.
    pub fn reset(&mut self)
        ensures
            exists|now: u64| *final(self) == reset_to(*old(self), now),
    {
        self.reset_at(monotonic_ms());
    }
}

// ── Laws ────────────────────────────────────────────────────────────────────

/// A newly registered task is due at the moment it is registered.
pub proof fn fresh_task_is_due(id: &'static str, interval_ms: u64, jitter_ms: u64, now: u64)
    ensures
        is_due(fresh_task(id, interval_ms, jitter_ms, now), now),
{
}

/// After a run at `now` the task waits at least its interval: it is not
/// due before `now + interval`, and it is due again once its interval and
/// drawn delay have passed. (When the next due time does not fit in a
/// `u64` it is held at `u64::MAX`, which is due at that reading.)
pub proof fn ran_task_waits_its_interval(t: TaskState, now: u64, delay: u64, later: u64)
    requires
        now + t.interval_ms + delay <= u64::MAX || later < u64::MAX,
    ensures
        now <= later < now + t.interval_ms ==> !is_due(ran_at(t, now, delay), later),
        later >= now + t.interval_ms + delay ==> is_due(ran_at(t, now, delay), later),
{
}

/// A reset task is due at once.
pub proof fn reset_task_is_due(t: TaskState, now: u64)
    ensures
        is_due(reset_to(t, now), now),
{
}

// ── The registry ────────────────────────────────────────────────────────────

/// The tasks in `ts` have distinct ids.
pub open spec fn distinct_ids(ts: Seq<TaskState>) -> bool {
    forall|i: int, j: int| 0 <= i < j < ts.len() ==> ts[i].id@ != ts[j].id@
}

/// Position of the task with this id, if it is registered.
pub open spec fn slot_of(ts: Seq<TaskState>, id: Seq<char>) -> Option<int> {
    if exists|i: int| 0 <= i < ts.len() && ts[i].id@ == id {
        Some(choose|i: int| 0 <= i < ts.len() && ts[i].id@ == id)
    } else {
        None
    }
}

/// The task with this id is registered and due at `now`.
pub open spec fn due_in(ts: Seq<TaskState>, id: Seq<char>, now: u64) -> bool {
    match slot_of(ts, id) {
        Some(i) => is_due(ts[i], now),
        None => false,
    }
}

/// The registered tasks after `t` was registered: it replaces the task
/// with its id, or joins the end.
pub open spec fn registered(ts: Seq<TaskState>, t: TaskState) -> Seq<TaskState> {
    match slot_of(ts, t.id@) {
        Some(i) => ts.update(i, t),
        None => ts.push(t),
    }
}

/// A scheduler for callers outside an async runtime: the registered tasks
/// by id.
pub struct BlockingScheduler {
    tasks: Vec<TaskState>,
}

impl View for BlockingScheduler {
    type V = Seq<TaskState>;

    closed spec fn view(&self) -> Seq<TaskState> {
        self.tasks@
    }
}

proof fn lemma_slot_unique(ts: Seq<TaskState>, id: Seq<char>, i: int)
    requires
        distinct_ids(ts),
        0 <= i < ts.len(),
        ts[i].id@ == id,
    ensures
        slot_of(ts, id) == Some(i),
{
    let j = choose|j: int| 0 <= j < ts.len() && ts[j].id@ == id;
    if j < i {
        assert(ts[j].id@ != ts[i].id@);
    } else if i < j {
        assert(ts[i].id@ != ts[j].id@);
    }
}

impl BlockingScheduler {
    pub open spec fn wf(&self) -> bool {
        distinct_ids(self@)
    }

    pub fn new() -> (s: Self)
        ensures
            s@ == Seq::<TaskState>::empty(),
            s.wf(),
    {
        BlockingScheduler { tasks: Vec::new() }
    }

    /// Position of the task with this id.
    fn find(&self, id: &str) -> (r: Option<usize>)
        requires
            self.wf(),
        ensures
            match r {
                Some(i) => slot_of(self@, id@) == Some(i as int) && i < self@.len(),
                None => slot_of(self@, id@) is None,
            },
    {
        let mut i: usize = 0;
        while i < self.tasks.len()
            invariant
                0 <= i <= self.tasks.len(),
                self.wf(),
                forall|k: int| 0 <= k < i ==> (#[trigger] self.tasks@[k]).id@ != id@,
            decreases self.tasks.len() - i,
        {
            if same_text(self.tasks[i].id, id) {
                proof {
                    lemma_slot_unique(self@, id@, i as int);
                }
                return Some(i);
            }
            i = i + 1;
        }
        None
    }

    /// Register `t`, replacing a task with the same id.
    pub fn register_task(&mut self, t: TaskState)
        requires
            old(self).wf(),
        ensures
            final(self).wf(),
            final(self)@ == registered(old(self)@, t),
    {
        match self.find(t.id) {
            Some(i) => {
                self.tasks.set(i, t);
                proof {
                    assert forall|a: int, b: int| 0 <= a < b < self@.len() implies self@[a].id@
                        != self@[b].id@ by {
                        if a != i && b != i {
                            assert(old(self)@[a].id@ != old(self)@[b].id@);
                        }
                    }
                }
            },
            None => {
                self.tasks.push(t);
                proof {
                    assert forall|a: int, b: int| 0 <= a < b < self@.len() implies self@[a].id@
                        != self@[b].id@ by {
                        if b < old(self)@.len() {
                            assert(old(self)@[a].id@ != old(self)@[b].id@);
                        } else {
                            assert(self@[a] == old(self)@[a]);
                        }
                    }
                }
            },
        }
    }

    /// Register a task now; it is due at once.
    pub fn register(&mut self, id: &'static str, interval_ms: u64, jitter_ms: u64)
        requires
            old(self).wf(),
        ensures
            final(self).wf(),
            exists|now: u64| final(self)@ == registered(old(self)@, fresh_task(id, interval_ms, jitter_ms, now)),
    {
        let t = TaskState::new_at(id, interval_ms, jitter_ms, monotonic_ms());
        self.register_task(t);
    }

    /// Remove the task with this id.
    pub fn unregister(&mut self, id: &str)
        requires
            old(self).wf(),
        ensures
            final(self).wf(),
            match slot_of(old(self)@, id@) {
                Some(i) => final(self)@ == old(self)@.remove(i),
                None => final(self)@ == old(self)@,
            },
    {
        match self.find(id) {
            Some(i) => {
                self.tasks.remove(i);
                proof {
                    assert forall|a: int, b: int| 0 <= a < b < self@.len() implies self@[a].id@
                        != self@[b].id@ by {
                        let oa = if a < i { a } else { a + 1 };
                        let ob = if b < i { b } else { b + 1 };
                        assert(self@[a] == old(self)@[oa]);
                        assert(self@[b] == old(self)@[ob]);
                    }
                }
            },
            None => {},
        }
    }

    /// Whether the task with this id is registered and due at `now_ms`.
    pub fn should_run_at(&self, id: &str, now_ms: u64) -> (b: bool)
        requires
            self.wf(),
        ensures
            b == match slot_of(self@, id@) {
                Some(i) => is_due(self@[i], now_ms),
                None => false,
            },
    {
        match self.find(id) {
            Some(i) => self.tasks[i].should_run_at(now_ms) == ShouldRun::Yes,
            None => false,
        }
    }

    /// Whether the task with this id is registered and due now.
    pub fn should_run(&self, id: &str) -> (b: bool)
        requires
            self.wf(),
        ensures
            exists|now: u64| b == #[trigger] due_in(self@, id@, now),
    {
        let now = monotonic_ms();
        let b = self.should_run_at(id, now);
        proof {
            assert(b == due_in(self@, id@, now));
        }
        b
    }

    /// Record a run of the task with this id at `now_ms`, with the drawn delay.
    pub fn mark_ran_at(&mut self, id: &str, now_ms: u64, delay_ms: u64)
        requires
            old(self).wf(),
        ensures
            final(self).wf(),
            match slot_of(old(self)@, id@) {
                Some(i) => final(self)@ == old(self)@.update(i, ran_at(old(self)@[i], now_ms, delay_ms)),
                None => final(self)@ == old(self)@,
            },
    {
        match self.find(id) {
            Some(i) => {
                let mut t = self.tasks[i];
                t.mark_ran_at(now_ms, delay_ms);
                self.tasks.set(i, t);
                proof {
                    assert forall|a: int, b: int| 0 <= a < b < self@.len() implies self@[a].id@
                        != self@[b].id@ by {
                        assert(old(self)@[a].id@ != old(self)@[b].id@);
                    }
                }
            },
            None => {},
        }
    }

    /// Record a run of the task with this id now, with a random delay of up
    /// to its jitter.
    pub fn mark_ran(&mut self, id: &str)
        requires
            old(self).wf(),
        ensures
            final(self).wf(),
            match slot_of(old(self)@, id@) {
                Some(i) => exists|now: u64, delay: u64|
                    delay <= old(self)@[i].jitter_ms && final(self)@ == old(self)@.update(
                        i,
                        ran_at(old(self)@[i], now, delay),
                    ),
                None => final(self)@ == old(self)@,
            },
    {
        match self.find(id) {
            Some(i) => {
                let jitter = self.tasks[i].jitter_ms;
                let delay = if jitter == 0 {
                    0
                } else {
                    random_delay(jitter)
                };
                self.mark_ran_at(id, monotonic_ms(), delay);
            },
            None => {},
        }
    }

    /// Make the task with this id due at `now_ms`.
    pub fn reset_at(&mut self, id: &str, now_ms: u64)
        requires
            old(self).wf(),
        ensures
            final(self).wf(),
            match slot_of(old(self)@, id@) {
                Some(i) => final(self)@ == old(self)@.update(i, reset_to(old(self)@[i], now_ms)),
                None => final(self)@ == old(self)@,
            },
    {
        match self.find(id) {
            Some(i) => {
                let mut t = self.tasks[i];
                t.reset_at(now_ms);
                self.tasks.set(i, t);
                proof {
                    assert forall|a: int, b: int| 0 <= a < b < self@.len() implies self@[a].id@
                        != self@[b].id@ by {
                        assert(old(self)@[a].id@ != old(self)@[b].id@);
                    }
                }
            },
            None => {},
        }
    }

    pub fn task_count(&self) -> (n: usize)
        ensures
            n == self@.len(),
    {
        self.tasks.len()
    }

    /// The ids of the registered tasks.
    pub fn tasks(&self) -> (v: Vec<&'static str>)
        ensures
            v@.len() == self@.len(),
            forall|i: int| 0 <= i < v@.len() ==> v@[i] == self@[i].id,
    {
        let mut out: Vec<&'static str> = Vec::new();
        let mut i: usize = 0;
        while i < self.tasks.len()
            invariant
                0 <= i <= self.tasks.len(),
                out@.len() == i,
                forall|k: int| 0 <= k < i ==> out@[k] == self@[k].id,
            decreases self.tasks.len() - i,
        {
            out.push(self.tasks[i].id);
            i = i + 1;
        }
        out
    }
}

/// The task with this id is due at `now`, or is not registered at all.
pub open spec fn due_or_unknown(ts: Seq<TaskState>, id: Seq<char>, now: u64) -> bool {
    match slot_of(ts, id) {
        Some(i) => is_due(ts[i], now),
        None => true,
    }
}

/// The scheduler of the daemon's async domains: the same registry of tasks
/// by id, where a task that is not registered is always due.
pub struct Scheduler {
    registry: BlockingScheduler,
}

impl View for Scheduler {
    type V = Seq<TaskState>;

    closed spec fn view(&self) -> Seq<TaskState> {
        self.registry@
    }
}

impl Scheduler {
    pub open spec fn wf(&self) -> bool {
        distinct_ids(self@)
    }

    pub fn new() -> (s: Self)
        ensures
            s@ == Seq::<TaskState>::empty(),
            s.wf(),
    {
        Scheduler { registry: BlockingScheduler::new() }
    }

    /// Register a task now, replacing one with the same id; it is due at once.
    pub fn register(&mut self, id: &'static str, interval_ms: u64, jitter_ms: u64)
        requires
            old(self).wf(),
        ensures
            final(self).wf(),
            exists|now: u64| final(self)@ == registered(old(self)@, fresh_task(id, interval_ms, jitter_ms, now)),
    {
        self.registry.register(id, interval_ms, jitter_ms);
    }

    /// Remove the task with this id.
    pub fn unregister(&mut self, id: &str)
        requires
            old(self).wf(),
        ensures
            final(self).wf(),
            match slot_of(old(self)@, id@) {
                Some(i) => final(self)@ == old(self)@.remove(i),
                None => final(self)@ == old(self)@,
            },
    {
        self.registry.unregister(id);
    }

    /// Whether the task with this id should run at `now_ms`: `Yes` when it is
    /// due or not registered.
    pub fn should_run_at(&self, id: &str, now_ms: u64) -> (r: ShouldRun)
        requires
            self.wf(),
        ensures
            r == if due_or_unknown(self@, id@, now_ms) {
                ShouldRun::Yes
            } else {
                ShouldRun::No
            },
    {
        match self.registry.find(id) {
            Some(i) => self.registry.tasks[i].should_run_at(now_ms),
            None => ShouldRun::Yes,
        }
    }

    /// Whether the task with this id should run now.
    pub fn should_run(&self, id: &str) -> (r: ShouldRun)
        requires
            self.wf(),
        ensures
            exists|now: u64|
                r == if #[trigger] due_or_unknown(self@, id@, now) {
                    ShouldRun::Yes
                } else {
                    ShouldRun::No
                },
    {
        let now = monotonic_ms();
        let r = self.should_run_at(id, now);
        proof {
            assert(r == if due_or_unknown(self@, id@, now) {
                ShouldRun::Yes
            } else {
                ShouldRun::No
            });
        }
        r
    }

    /// Record a run of the task with this id now, with a random delay of up
    /// to its jitter.
    pub fn mark_ran(&mut self, id: &str)
        requires
            old(self).wf(),
        ensures
            final(self).wf(),
            match slot_of(old(self)@, id@) {
                Some(i) => exists|now: u64, delay: u64|
                    delay <= old(self)@[i].jitter_ms && final(self)@ == old(self)@.update(
                        i,
                        ran_at(old(self)@[i], now, delay),
                    ),
                None => final(self)@ == old(self)@,
            },
    {
        self.registry.mark_ran(id);
    }

    /// Make the task with this id due now.
    pub fn reset(&mut self, id: &str)
        requires
            old(self).wf(),
        ensures
            final(self).wf(),
            match slot_of(old(self)@, id@) {
                Some(i) => exists|now: u64| final(self)@ == old(self)@.update(i, reset_to(old(self)@[i], now)),
                None => final(self)@ == old(self)@,
            },
    {
        let now = monotonic_ms();
        self.registry.reset_at(id, now);
    }

    /// The ids of the registered tasks.
    pub fn tasks(&self) -> (v: Vec<&'static str>)
        ensures
            v@.len() == self@.len(),
            forall|i: int| 0 <= i < v@.len() ==> v@[i] == self@[i].id,
    {
        self.registry.tasks()
    }

    pub fn task_count(&self) -> (n: usize)
        ensures
            n == self@.len(),
    {
        self.registry.task_count()
    }
}

impl Default for Scheduler {
    fn default() -> (s: Self)
        ensures
            s@ == Seq::<TaskState>::empty(),
    {
        Self::new()
    }
}

impl Default for BlockingScheduler {
    fn default() -> (s: Self)
        ensures
            s@ == Seq::<TaskState>::empty(),
    {
        Self::new()
    }
}

} // verus!
