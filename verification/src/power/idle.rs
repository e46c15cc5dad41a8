//! Idle handling: which idle state a period of inactivity puts the session
//! in, which configured action is due, what each poll announces, and the
//! list of active inhibitors.
use vstd::prelude::*;
use crate::ipc::events::IdleEvent;
use crate::text::{chars_of, string_of};

verus! {

/// Idle thresholds (seconds, 0 disables one) and the commands run at them.
#[derive(Debug, Clone)]
pub struct Config {
    pub idle_timeout_secs: u64,
    pub sleep_timeout_secs: u64,
    pub dim_timeout_secs: u64,
    pub screen_off_timeout_secs: u64,
    pub lock_timeout_secs: u64,
    pub suspend_timeout_secs: u64,
    pub fade_duration_secs: u64,
    pub screen_off_command: Option<String>,
    pub lock_command: Option<String>,
    pub suspend_command: Option<String>,
    pub resume_screen_off_command: Option<String>,
    pub resume_lock_command: Option<String>,
    pub resume_suspend_command: Option<String>,
}

impl Default for Config {
    fn default() -> (c: Self)
        ensures
            c.idle_timeout_secs == 300,
            c.sleep_timeout_secs == 600,
            c.dim_timeout_secs == 60,
            c.screen_off_timeout_secs == 600,
            c.lock_timeout_secs == 660,
            c.suspend_timeout_secs == 1800,
            c.fade_duration_secs == 5,
            c.screen_off_command is None,
            c.lock_command is None,
            c.suspend_command is None,
            c.resume_screen_off_command is None,
            c.resume_lock_command is None,
            c.resume_suspend_command is None,
    {
        Config {
            idle_timeout_secs: 300,
            sleep_timeout_secs: 600,
            dim_timeout_secs: 60,
            screen_off_timeout_secs: 600,
            lock_timeout_secs: 660,
            suspend_timeout_secs: 1800,
            fade_duration_secs: 5,
            screen_off_command: None,
            lock_command: None,
            suspend_command: None,
            resume_screen_off_command: None,
            resume_lock_command: None,
            resume_suspend_command: None,
        }
    }
}

#[derive(Debug, Clone, Copy, PartialEq, Eq, Structural)]
pub enum IdleState {
    Active,
    Idle,
    Dimming,
    Sleeping,
    ScreenOff,
    Locked,
    Suspended,
}

#[derive(Debug, Clone)]
pub struct IdleStatus {
    pub idle_time_secs: u64,
    pub state: IdleState,
    pub inhibited: bool,
    pub pending_action: Option<String>,
}

/// An inhibitor registered with the screen saver.
#[derive(Debug, Clone)]
pub struct InhibitEntry {
    pub id: u32,
    pub reason: String,
}

/// Why an idle request failed.
#[derive(Debug, Clone)]
pub enum IdleError {
    DBus(String),
    NoBackend,
    InhibitNotFound(u32),
    CommandError(String),
}

/// The idle actions that have been carried out since the session was last active.
#[derive(Debug, Clone, Copy, PartialEq, Eq, Structural)]
pub struct ExecutedActions {
    pub screen_off: bool,
    pub lock: bool,
    pub suspend: bool,
}

impl ExecutedActions {
    pub fn none() -> (e: Self)
        ensures
            !e.screen_off && !e.lock && !e.suspend,
    {
        ExecutedActions { screen_off: false, lock: false, suspend: false }
    }
}

// ── Specifications ──────────────────────────────────────────────────────────

/// A threshold that is set and has been reached.
pub open spec fn reached(timeout: u64, idle_time: u64) -> bool {
    timeout > 0 && idle_time >= timeout
}

/// The state from the idle thresholds alone.
pub open spec fn base_state(idle_time: u64, cfg: Config) -> IdleState {
    if reached(cfg.sleep_timeout_secs, idle_time) {
        IdleState::Sleeping
    } else if reached(cfg.idle_timeout_secs, idle_time) {
        IdleState::Idle
    } else if reached(cfg.dim_timeout_secs, idle_time) {
        IdleState::Dimming
    } else {
        IdleState::Active
    }
}

/// The state, and the action due (`"suspend"`, `"lock"` or `"screen_off"`):
/// an action already carried out fixes the state; otherwise the strongest
/// action whose threshold is reached and whose command is configured is due,
/// with the session sleeping.
pub open spec fn idle_outcome(idle_time: u64, cfg: Config, executed: ExecutedActions) -> (IdleState, Option<Seq<char>>) {
    if executed.suspend {
        (IdleState::Suspended, None)
    } else if executed.lock {
        (IdleState::Locked, None)
    } else if executed.screen_off {
        (IdleState::ScreenOff, None)
    } else if reached(cfg.suspend_timeout_secs, idle_time) && cfg.suspend_command is Some {
        (IdleState::Sleeping, Some("suspend"@))
    } else if reached(cfg.lock_timeout_secs, idle_time) && cfg.lock_command is Some {
        (IdleState::Sleeping, Some("lock"@))
    } else if reached(cfg.screen_off_timeout_secs, idle_time) && cfg.screen_off_command is Some {
        (IdleState::Sleeping, Some("screen_off"@))
    } else {
        (base_state(idle_time, cfg), None)
    }
}

/// The actions an idle session runs: an action is due exactly when its
/// threshold is set and reached, its command is configured, and nothing has
/// been carried out yet; of the due ones the strongest (suspend over lock
/// over screen off) is chosen, and the session is then sleeping. Once an
/// action has been carried out, nothing more is due.
pub proof fn idle_action_law(idle_time: u64, cfg: Config, executed: ExecutedActions)
    ensures
        ({
            let (state, action) = idle_outcome(idle_time, cfg, executed);
            let done = executed.suspend || executed.lock || executed.screen_off;
            let suspend_due = cfg.suspend_timeout_secs > 0 && idle_time >= cfg.suspend_timeout_secs
                && cfg.suspend_command.is_some();
            let lock_due = cfg.lock_timeout_secs > 0 && idle_time >= cfg.lock_timeout_secs
                && cfg.lock_command.is_some();
            let screen_due = cfg.screen_off_timeout_secs > 0 && idle_time >= cfg.screen_off_timeout_secs
                && cfg.screen_off_command.is_some();
            &&& done ==> action is None
            &&& !done ==> (action is Some <==> suspend_due || lock_due || screen_due)
            &&& !done && suspend_due ==> action == Some("suspend"@)
            &&& !done && !suspend_due && lock_due ==> action == Some("lock"@)
            &&& !done && !suspend_due && !lock_due && screen_due ==> action == Some("screen_off"@)
            &&& action is Some ==> state == IdleState::Sleeping
        }),
{
}

/// Staying idle longer never takes a due action away: with nothing carried
/// out, an action due after `t1` seconds is still due (perhaps a stronger
/// one) after `t2 >= t1` seconds.
pub proof fn idle_action_stays_due(t1: u64, t2: u64, cfg: Config, executed: ExecutedActions)
    requires
        t1 <= t2,
        !executed.suspend && !executed.lock && !executed.screen_off,
        idle_outcome(t1, cfg, executed).1 is Some,
    ensures
        idle_outcome(t2, cfg, executed).1 is Some,
{
    idle_action_law(t1, cfg, executed);
    idle_action_law(t2, cfg, executed);
}

/// The event name announced for a state.
pub open spec fn event_name_of(state: IdleState) -> Seq<char> {
    match state {
        IdleState::Active => "resumed"@,
        IdleState::Idle => "idle_detected"@,
        IdleState::Dimming => "dimming"@,
        IdleState::Sleeping => "sleeping"@,
        IdleState::ScreenOff => "screen_off"@,
        IdleState::Locked => "locked"@,
        IdleState::Suspended => "suspended"@,
    }
}

pub open spec fn opt_chars(o: Option<String>) -> Option<Seq<char>> {
    match o {
        Some(s) => Some(s@),
        None => None,
    }
}

// ── Decisions ───────────────────────────────────────────────────────────────

fn text(s: &str) -> (r: String)
    ensures
        r@ == s@,
{
    string_of(chars_of(s).as_slice())
}

/// The idle state after `idle_time` seconds without input, and the action
/// that is due, if any.
pub fn calculate_state(idle_time: u64, cfg: &Config, executed: ExecutedActions) -> (r: (IdleState, Option<String>))
    ensures
        r.0 == idle_outcome(idle_time, *cfg, executed).0,
        opt_chars(r.1) == idle_outcome(idle_time, *cfg, executed).1,
{
    let base = if cfg.sleep_timeout_secs > 0 && idle_time >= cfg.sleep_timeout_secs {
        IdleState::Sleeping
    } else if cfg.idle_timeout_secs > 0 && idle_time >= cfg.idle_timeout_secs {
        IdleState::Idle
    } else if cfg.dim_timeout_secs > 0 && idle_time >= cfg.dim_timeout_secs {
        IdleState::Dimming
    } else {
        IdleState::Active
    };
    if executed.suspend {
        return (IdleState::Suspended, None);
    }
    if executed.lock {
        return (IdleState::Locked, None);
    }
    if executed.screen_off {
        return (IdleState::ScreenOff, None);
    }
    if cfg.suspend_timeout_secs > 0 && idle_time >= cfg.suspend_timeout_secs
        && cfg.suspend_command.is_some() {
        return (IdleState::Sleeping, Some(text("suspend")));
    }
    if cfg.lock_timeout_secs > 0 && idle_time >= cfg.lock_timeout_secs && cfg.lock_command.is_some() {
        return (IdleState::Sleeping, Some(text("lock")));
    }
    if cfg.screen_off_timeout_secs > 0 && idle_time >= cfg.screen_off_timeout_secs
        && cfg.screen_off_command.is_some() {
        return (IdleState::Sleeping, Some(text("screen_off")));
    }
    (base, None)
}

/// The event name announced for a state.
pub fn idle_event_name(state: IdleState) -> (s: String)
    ensures
        s@ == event_name_of(state),
{
    let lit = match state {
        IdleState::Active => "resumed",
        IdleState::Idle => "idle_detected",
        IdleState::Dimming => "dimming",
        IdleState::Sleeping => "sleeping",
        IdleState::ScreenOff => "screen_off",
        IdleState::Locked => "locked",
        IdleState::Suspended => "suspended",
    };
    text(lit)
}

/// What one poll of the idle time decides.
#[derive(Debug, Clone)]
pub struct IdleTick {
    pub state: IdleState,
    pub pending_action: Option<String>,
    /// The events to broadcast, in order.
    pub events: Vec<IdleEvent>,
    /// The executed actions to keep for the next poll.
    pub executed: ExecutedActions,
}

fn copy_opt(o: &Option<String>) -> (r: Option<String>)
    ensures
        r == *o,
{
    match o {
        Some(s) => Some(s.clone()),
        None => None,
    }
}

/// One poll: the state and due action for `idle_time`; the state's event,
/// unless an inhibitor is active (the return to activity is announced even
/// then); an `action_pending` event when an action is due. Activity clears
/// the executed actions.
pub fn idle_tick(idle_time: u64, inhibited: bool, cfg: &Config, executed: ExecutedActions) -> (t: IdleTick)
    ensures
        t.state == idle_outcome(idle_time, *cfg, executed).0,
        opt_chars(t.pending_action) == idle_outcome(idle_time, *cfg, executed).1,
        t.executed == if t.state == IdleState::Active {
            ExecutedActions { screen_off: false, lock: false, suspend: false }
        } else {
            executed
        },
        ({
            let announce = !inhibited || t.state == IdleState::Active;
            let pending = t.pending_action is Some;
            &&& t.events@.len() == (if announce { 1int } else { 0int }) + (if pending { 1int } else { 0int })
            &&& announce ==> t.events@[0].event@ == event_name_of(t.state)
                && t.events@[0].idle_time_secs == idle_time
                && t.events@[0].pending_action == t.pending_action
            &&& pending ==> t.events@.last().event@ == "action_pending"@
                && t.events@.last().idle_time_secs == idle_time
                && t.events@.last().pending_action == t.pending_action
        }),
{
    let (state, pending) = calculate_state(idle_time, cfg, executed);
    let next_executed = if state == IdleState::Active {
        ExecutedActions::none()
    } else {
        executed
    };
    let mut events: Vec<IdleEvent> = Vec::new();
    if !inhibited || state == IdleState::Active {
        events.push(
            IdleEvent {
                event: idle_event_name(state),
                idle_time_secs: idle_time,
                pending_action: copy_opt(&pending),
            },
        );
    }
    if pending.is_some() {
        events.push(
            IdleEvent {
                event: text("action_pending"),
                idle_time_secs: idle_time,
                pending_action: copy_opt(&pending),
            },
        );
    }
    IdleTick { state, pending_action: pending, events, executed: next_executed }
}

/// The status reported on request: the default thresholds, no action
/// carried out, no action pending.
pub fn idle_status(idle_time: u64, inhibited: bool) -> (s: IdleStatus)
    ensures
        s.idle_time_secs == idle_time,
        s.state == idle_outcome(idle_time, Config::default_spec(), ExecutedActions { screen_off: false, lock: false, suspend: false }).0,
        s.inhibited == inhibited,
        s.pending_action is None,
{
    let cfg = Config::default();
    let (state, _) = calculate_state(idle_time, &cfg, ExecutedActions::none());
    IdleStatus { idle_time_secs: idle_time, state, inhibited, pending_action: None }
}

impl Config {
    pub open spec fn default_spec() -> Config {
        Config {
            idle_timeout_secs: 300,
            sleep_timeout_secs: 600,
            dim_timeout_secs: 60,
            screen_off_timeout_secs: 600,
            lock_timeout_secs: 660,
            suspend_timeout_secs: 1800,
            fade_duration_secs: 5,
            screen_off_command: None,
            lock_command: None,
            suspend_command: None,
            resume_screen_off_command: None,
            resume_lock_command: None,
            resume_suspend_command: None,
        }
    }
}

// ── Inhibitors ──────────────────────────────────────────────────────────────

/// Position of the first inhibitor with this id.
pub fn find_inhibit(entries: &[InhibitEntry], id: u32) -> (r: Option<usize>)
    ensures
        match r {
            Some(i) => i < entries@.len() && entries@[i as int].id == id && forall|k: int|
                0 <= k < i ==> (#[trigger] entries@[k]).id != id,
            None => forall|k: int| 0 <= k < entries@.len() ==> (#[trigger] entries@[k]).id != id,
        },
{
    let mut i: usize = 0;
    while i < entries.len()
        invariant
            0 <= i <= entries.len(),
            forall|k: int| 0 <= k < i ==> (#[trigger] entries@[k]).id != id,
        decreases entries.len() - i,
    {
        if entries[i].id == id {
            return Some(i);
        }
        i = i + 1;
    }
    None
}

/// Remove the inhibitor with this id from the list, or report that there
/// is none.
pub fn remove_inhibit(entries: &mut Vec<InhibitEntry>, id: u32) -> (r: Result<(), IdleError>)
    ensures
        match r {
            Ok(()) => exists|i: int|
                0 <= i < old(entries)@.len() && old(entries)@[i].id == id && (forall|k: int|
                    0 <= k < i ==> (#[trigger] old(entries)@[k]).id != id) && final(entries)@
                    == old(entries)@.remove(i),
            Err(e) => e == IdleError::InhibitNotFound(id) && final(entries)@ == old(entries)@ && forall|k: int|
                0 <= k < old(entries)@.len() ==> (#[trigger] old(entries)@[k]).id != id,
        },
{
    match find_inhibit(entries.as_slice(), id) {
        Some(i) => {
            entries.remove(i);
            Ok(())
        },
        None => Err(IdleError::InhibitNotFound(id)),
    }
}

} // verus!
