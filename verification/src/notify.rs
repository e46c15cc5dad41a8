//! The notification daemon's store and the decisions it makes on each
//! `Notify` call: which id a notification gets, which one is evicted when
//! the store is full, and how the call's hints and actions are read.
use vstd::prelude::*;
use std::collections::HashMap;
use vstd::std_specs::iter::IteratorSpec;
use crate::ipc::events::NotifyEvent;
use crate::ipc::types::{Notification, NotificationAction, Urgency};

verus! {

/// How the notification daemon runs.
#[derive(Debug, Clone, Copy)]
pub struct Config {
    /// Register as the system notification daemon.
    pub replace_daemon: bool,
    /// Timeout used when a client asks for the default (-1), in milliseconds.
    pub default_timeout_ms: i32,
    /// How many notifications the store keeps.
    pub max_store: usize,
}

impl Default for Config {
    fn default() -> (c: Self)
        ensures
            c.replace_daemon,
            c.default_timeout_ms == 5000,
            c.max_store == 200,
    {
        Config { replace_daemon: true, default_timeout_ms: 5000, max_store: 200 }
    }
}

/// Why a notification request failed.
#[derive(Debug, Clone)]
pub enum NotifyError {
    DBus(String),
    NotFound(u32),
}

// ── Specifications ──────────────────────────────────────────────────────────

/// Two notifications that agree on every field.
pub open spec fn same_notification(a: Notification, b: Notification) -> bool {
    &&& a.id == b.id
    &&& a.app_name == b.app_name
    &&& a.summary == b.summary
    &&& a.body == b.body
    &&& a.icon == b.icon
    &&& a.urgency == b.urgency
    &&& a.actions@ == b.actions@
    &&& a.expire_timeout_ms == b.expire_timeout_ms
    &&& a.timestamp_ms == b.timestamp_ms
}

/// `n` as stored under `id`.
pub open spec fn stored_as(n: Notification, id: u32, stored: Notification) -> bool {
    &&& stored.id == id
    &&& stored.app_name == n.app_name
    &&& stored.summary == n.summary
    &&& stored.body == n.body
    &&& stored.icon == n.icon
    &&& stored.urgency == n.urgency
    &&& stored.actions@ == n.actions@
    &&& stored.expire_timeout_ms == n.expire_timeout_ms
    &&& stored.timestamp_ms == n.timestamp_ms
}

/// `k` is the smallest id in the map.
pub open spec fn is_oldest(m: Map<u32, Notification>, k: u32) -> bool {
    m.contains_key(k) && forall|j: u32| #[trigger] m.contains_key(j) ==> k <= j
}

/// The smallest id in the map (meaningful when the map is not empty).
pub open spec fn oldest_id(m: Map<u32, Notification>) -> u32 {
    choose|k: u32| is_oldest(m, k)
}

/// The map after room was made for one more notification: when it holds
/// `max_store` or more, the smallest id leaves.
pub open spec fn after_eviction(m: Map<u32, Notification>, max_store: usize) -> Map<u32, Notification> {
    if m.len() >= max_store && m.len() > 0 {
        m.remove(oldest_id(m))
    } else {
        m
    }
}

/// The urgency a client's `urgency` hint selects.
pub open spec fn urgency_of(hint: Option<u8>) -> Urgency {
    match hint {
        Some(0) => Urgency::Low,
        Some(2) => Urgency::Critical,
        _ => Urgency::Normal,
    }
}

/// The actions of a `Notify` call: consecutive (key, label) pairs; an odd
/// last element is dropped.
pub open spec fn actions_of(actions: Seq<String>) -> Seq<NotificationAction> {
    Seq::new(
        actions.len() / 2,
        |i: int| NotificationAction { key: actions[2 * i], label: actions[2 * i + 1] },
    )
}

/// Every consecutive pair of a `Notify` call's actions becomes one action,
/// in order: there are half as many actions as strings (an odd last string
/// is the only one left over), action `i` is the pair at `2i` and `2i + 1`,
/// and every key string and every label string appears in its action.
pub proof fn actions_pair_up(actions: Seq<String>)
    ensures
        2 * actions_of(actions).len() + actions.len() % 2 == actions.len(),
        forall|i: int|
            0 <= i < actions_of(actions).len() ==> (#[trigger] actions_of(actions)[i]).key == actions[2 * i]
                && actions_of(actions)[i].label == actions[2 * i + 1],
        forall|j: int|
            0 <= j < 2 * actions_of(actions).len() ==> if j % 2 == 0 {
                actions_of(actions)[j / 2].key == #[trigger] actions[j]
            } else {
                actions_of(actions)[j / 2].label == actions[j]
            },
{
    assert forall|j: int| 0 <= j < 2 * actions_of(actions).len() implies if j % 2 == 0 {
        actions_of(actions)[j / 2].key == #[trigger] actions[j]
    } else {
        actions_of(actions)[j / 2].label == actions[j]
    } by {
        if j % 2 == 0 {
            assert(2 * (j / 2) == j);
        } else {
            assert(2 * (j / 2) + 1 == j);
        }
    }
}

/// Parsing splits at any even point: the actions of `a` followed by `b`,
/// where `a` holds whole pairs, are the actions of `a` followed by those
/// of `b`.
pub proof fn actions_of_concat(a: Seq<String>, b: Seq<String>)
    requires
        a.len() % 2 == 0,
    ensures
        actions_of(a + b) == actions_of(a) + actions_of(b),
{
    let n = a.len() / 2;
    assert((a.len() + b.len()) / 2 == n + b.len() / 2);
    assert forall|i: int| 0 <= i < actions_of(a + b).len() implies #[trigger] actions_of(a + b)[i] == (
    actions_of(a) + actions_of(b))[i] by {
        if i < n {
            assert((a + b)[2 * i] == a[2 * i]);
            assert((a + b)[2 * i + 1] == a[2 * i + 1]);
        } else {
            assert((a + b)[2 * i] == b[2 * (i - n)]);
            assert((a + b)[2 * i + 1] == b[2 * (i - n) + 1]);
        }
    }
    assert(actions_of(a + b) =~= actions_of(a) + actions_of(b));
}

// ── Helpers ─────────────────────────────────────────────────────────────────

fn copy_action(a: &NotificationAction) -> (r: NotificationAction)
    ensures
        r == *a,
{
    NotificationAction { key: a.key.clone(), label: a.label.clone() }
}

fn copy_actions(v: &Vec<NotificationAction>) -> (r: Vec<NotificationAction>)
    ensures
        r@ == v@,
{
    let mut out: Vec<NotificationAction> = Vec::new();
    let mut i: usize = 0;
    while i < v.len()
        invariant
            0 <= i <= v.len(),
            out@ == v@.subrange(0, i as int),
        decreases v.len() - i,
    {
        out.push(copy_action(&v[i]));
        i = i + 1;
        assert(out@ =~= v@.subrange(0, i as int));
    }
    assert(v@.subrange(0, v@.len() as int) =~= v@);
    out
}

/// A copy of a notification, field by field.
pub fn copy_notification(n: &Notification) -> (r: Notification)
    ensures
        same_notification(r, *n),
{
    Notification {
        id: n.id,
        app_name: n.app_name.clone(),
        summary: n.summary.clone(),
        body: n.body.clone(),
        icon: n.icon.clone(),
        urgency: n.urgency,
        actions: copy_actions(&n.actions),
        expire_timeout_ms: n.expire_timeout_ms,
        timestamp_ms: n.timestamp_ms,
    }
}

/// The smallest id at or above `lower`.
fn least_id_from(m: &HashMap<u32, Notification>, lower: u64) -> (r: Option<u32>)
    ensures
        match r {
            Some(k) => m@.contains_key(k) && k >= lower && forall|j: u32|
                #[trigger] m@.contains_key(j) && j >= lower ==> k <= j,
            None => forall|j: u32| #[trigger] m@.contains_key(j) ==> j < lower,
        },
{
    proof {
        assert(vstd::std_specs::hash::spec_keys_iter(m).remaining().unref().to_set() == m@.dom());
    }
    let mut best: Option<u32> = None;
    for k in it: m.keys()
        invariant
            it.seq().unref().to_set() == m@.dom(),
            match best {
                Some(b) => m@.contains_key(b) && b >= lower && forall|i: int|
                    0 <= i < it.index() && *it.seq()[i] >= lower ==> b <= *it.seq()[i],
                None => forall|i: int| 0 <= i < it.index() ==> *it.seq()[i] < lower,
            },
    {
        let key = *k;
        if key as u64 >= lower {
            match best {
                Some(b) => if key < b {
                    best = Some(key);
                },
                None => {
                    best = Some(key);
                },
            }
        }
    }
    best
}

// ── The store ───────────────────────────────────────────────────────────────

/// The notifications kept in memory, by id. Each is stored under its own
/// id; ids handed out for new notifications count up from 1.
pub struct NotifyStore {
    notifications: HashMap<u32, Notification>,
    next_id: u32,
    max_store: usize,
}

impl View for NotifyStore {
    type V = Map<u32, Notification>;

    closed spec fn view(&self) -> Map<u32, Notification> {
        self.notifications@
    }
}

impl NotifyStore {
    /// The id the next notification without one will get.
    pub closed spec fn next(&self) -> u32 {
        self.next_id
    }

    /// How many notifications the store keeps.
    pub closed spec fn capacity(&self) -> usize {
        self.max_store
    }

    /// Each notification is stored under its own id, and the store holds
    /// finitely many: at most its capacity (at most one for capacity 0).
    pub open spec fn wf(&self) -> bool {
        &&& forall|k: u32| #[trigger] self@.contains_key(k) ==> self@[k].id == k
        &&& self@.dom().finite()
        &&& self@.len() <= if self.capacity() == 0 {
            1
        } else {
            self.capacity() as nat
        }
    }

    pub fn new(max_store: usize) -> (s: Self)
        ensures
            s@ == Map::<u32, Notification>::empty(),
            s.next() == 1,
            s.capacity() == max_store,
            s.wf(),
    {
        NotifyStore { notifications: HashMap::new(), next_id: 1, max_store }
    }

    /// Store a notification and return its id: its own id when it has one,
    /// otherwise the next free counter value. When the store is full, the
    /// notification with the smallest id leaves first.
    pub fn insert(&mut self, notif: Notification) -> (id: u32)
        requires
            old(self).wf(),
            notif.id == 0 ==> old(self).next() < u32::MAX,
        ensures
            final(self).wf(),
            id == if notif.id == 0 {
                old(self).next()
            } else {
                notif.id
            },
            final(self).next() == if notif.id == 0 {
                (old(self).next() + 1) as u32
            } else {
                old(self).next()
            },
            final(self).capacity() == old(self).capacity(),
            final(self)@.dom() == after_eviction(old(self)@, old(self).capacity()).dom().insert(id),
            forall|k: u32|
                #[trigger] final(self)@.contains_key(k) && k != id ==> final(self)@[k] == after_eviction(
                    old(self)@,
                    old(self).capacity(),
                )[k],
            stored_as(notif, id, final(self)@[id]),
    {
        let mut notif = notif;
        let id = if notif.id == 0 {
            let id = self.next_id;
            self.next_id = self.next_id + 1;
            id
        } else {
            notif.id
        };
        notif.id = id;
        let ghost before = self.notifications@;
        if self.notifications.len() >= self.max_store {
            match least_id_from(&self.notifications, 0) {
                Some(oldest) => {
                    proof {
                        assert(is_oldest(before, oldest));
                        assert(is_oldest(before, oldest_id(before)));
                        assert(oldest_id(before) == oldest);
                        assert(before.len() > 0) by {
                            assert(before.dom().contains(oldest));
                        }
                    }
                    self.notifications.remove(&oldest);
                },
                None => {
                    proof {
                        assert(before.dom() =~= Set::<u32>::empty());
                    }
                },
            }
        }
        self.notifications.insert(id, notif);
        proof {
            let m = before;
            if self.max_store >= 1 {
                store_stays_within_capacity(m, self.max_store, id);
            } else {
                if m.len() > 0 {
                    assert(m.dom().contains(oldest_id(m))) by {
                        lemma_least_exists(m.dom());
                        let k = choose|k: u32| m.dom().contains(k) && forall|j: u32| #[trigger] m.dom().contains(j) ==> k <= j;
                        assert(is_oldest(m, k));
                    }
                    assert(m.remove(oldest_id(m)).dom() =~= m.dom().remove(oldest_id(m)));
                    assert(m.dom().remove(oldest_id(m)).len() == 0);
                }
                assert(after_eviction(m, self.max_store).dom().len() == 0);
                assert(after_eviction(m, self.max_store).dom() =~= Set::<u32>::empty());
                assert(after_eviction(m, self.max_store).dom().insert(id) =~= set![id]);
            }
            assert(self@.dom() =~= after_eviction(m, self.max_store).dom().insert(id));
        }
        id
    }

    /// Take the notification with this id out of the store.
    pub fn remove(&mut self, id: u32) -> (r: Option<Notification>)
        requires
            old(self).wf(),
        ensures
            final(self).wf(),
            final(self)@ == old(self)@.remove(id),
            final(self).next() == old(self).next(),
            final(self).capacity() == old(self).capacity(),
            r == if old(self)@.contains_key(id) {
                Some(old(self)@[id])
            } else {
                None::<Notification>
            },
    {
        self.notifications.remove(&id)
    }

    /// All notifications, by ascending id.
    pub fn list(&self) -> (v: Vec<Notification>)
        requires
            self.wf(),
        ensures
            forall|i: int, j: int| 0 <= i < j < v.len() ==> v@[i].id < v@[j].id,
            forall|i: int|
                0 <= i < v.len() ==> self@.contains_key(#[trigger] v@[i].id) && same_notification(
                    v@[i],
                    self@[v@[i].id],
                ),
            forall|k: u32| #[trigger] self@.contains_key(k) ==> exists|i: int| 0 <= i < v.len() && v@[i].id == k,
            v@.len() == self@.len(),
    {
        let mut out: Vec<Notification> = Vec::new();
        let mut lower: u64 = 0;
        loop
            invariant
                self.wf(),
                lower <= u32::MAX + 1,
                forall|i: int, j: int| 0 <= i < j < out.len() ==> out@[i].id < out@[j].id,
                forall|i: int| 0 <= i < out.len() ==> out@[i].id < lower,
                forall|i: int|
                    0 <= i < out.len() ==> self@.contains_key(#[trigger] out@[i].id) && same_notification(
                        out@[i],
                        self@[out@[i].id],
                    ),
                forall|k: u32|
                    #[trigger] self@.contains_key(k) && k < lower ==> exists|i: int|
                        0 <= i < out.len() && out@[i].id == k,
            decreases u32::MAX + 1 - lower,
        {
            match least_id_from(&self.notifications, lower) {
                None => {
                    proof {
                        lemma_listed_ids_count(self@, out@);
                    }
                    return out;
                },
                Some(k) => {
                    let n = self.notifications.get(&k).unwrap();
                    let c = copy_notification(n);
                    let ghost old_out = out@;
                    out.push(c);
                    proof {
                        assert(out@[old_out.len() as int] == c);
                        assert forall|j: u32| #[trigger] self@.contains_key(j) && j < k + 1 implies exists|i: int|
                            0 <= i < out.len() && out@[i].id == j by {
                            if j < lower {
                                let i = choose|i: int| 0 <= i < old_out.len() && old_out[i].id == j;
                                assert(out@[i] == old_out[i]);
                            } else {
                                assert(j == k);
                                assert(out@[old_out.len() as int].id == j);
                            }
                        }
                        assert forall|i: int| 0 <= i < out.len() implies self@.contains_key(#[trigger] out@[i].id)
                            && same_notification(out@[i], self@[out@[i].id]) by {
                            if i < old_out.len() {
                                assert(out@[i] == old_out[i]);
                            }
                        }
                    }
                    lower = k as u64 + 1;
                },
            }
        }
    }
}


proof fn lemma_listed_ids_count(m: Map<u32, Notification>, v: Seq<Notification>)
    requires
        m.dom().finite(),
        forall|i: int, j: int| 0 <= i < j < v.len() ==> v[i].id < v[j].id,
        forall|i: int| 0 <= i < v.len() ==> m.contains_key(#[trigger] v[i].id),
        forall|k: u32| #[trigger] m.contains_key(k) ==> exists|i: int| 0 <= i < v.len() && v[i].id == k,
    ensures
        v.len() == m.len(),
{
    let ids = v.map_values(|n: Notification| n.id);
    assert(ids.no_duplicates()) by {
        assert forall|i: int, j: int| 0 <= i < ids.len() && 0 <= j < ids.len() && i != j implies ids[i]
            != ids[j] by {
            if i < j {
                assert(v[i].id < v[j].id);
            } else {
                assert(v[j].id < v[i].id);
            }
        }
    }
    assert(ids.to_set() =~= m.dom()) by {
        assert forall|k: u32| ids.to_set().contains(k) implies m.dom().contains(k) by {
            let i = choose|i: int| 0 <= i < ids.len() && ids[i] == k;
            assert(m.contains_key(v[i].id));
        }
        assert forall|k: u32| m.dom().contains(k) implies ids.to_set().contains(k) by {
            assert(m.contains_key(k));
            let i = choose|i: int| 0 <= i < v.len() && v[i].id == k;
            assert(ids[i] == k);
            assert(ids.contains(k));
        }
    }
    ids.unique_seq_to_set();
}

/// A well-formed store never holds more than its capacity (at least one).
pub proof fn store_holds_at_most_capacity(s: NotifyStore)
    requires
        s.wf(),
        s.capacity() >= 1,
    ensures
        s@.len() <= s.capacity(),
{
}

proof fn lemma_least_exists(s: Set<u32>)
    requires
        s.finite(),
        s.len() > 0,
    ensures
        exists|k: u32| s.contains(k) && forall|j: u32| #[trigger] s.contains(j) ==> k <= j,
    decreases s.len(),
{
    let x = s.choose();
    assert(s.contains(x));
    let r = s.remove(x);
    if r.len() == 0 {
        assert forall|j: u32| #[trigger] s.contains(j) implies x <= j by {
            if j != x {
                assert(r.contains(j));
            }
        }
    } else {
        lemma_least_exists(r);
        let k = choose|k: u32| r.contains(k) && forall|j: u32| #[trigger] r.contains(j) ==> k <= j;
        if x < k {
            assert forall|j: u32| #[trigger] s.contains(j) implies x <= j by {
                if j != x {
                    assert(r.contains(j));
                }
            }
        } else {
            assert forall|j: u32| #[trigger] s.contains(j) implies k <= j by {
                if j != x {
                    assert(r.contains(j));
                }
            }
            assert(s.contains(k));
        }
    }
}

/// The store never grows past its capacity: a store holding at most
/// `max_store` notifications (at least one) still holds at most that many
/// after an insertion, whatever id the new notification gets.
pub proof fn store_stays_within_capacity(m: Map<u32, Notification>, max_store: usize, id: u32)
    requires
        m.dom().finite(),
        1 <= max_store,
        m.len() <= max_store,
    ensures
        after_eviction(m, max_store).dom().insert(id).len() <= max_store,
{
    if m.len() >= max_store && m.len() > 0 {
        lemma_least_exists(m.dom());
        let k = choose|k: u32| m.dom().contains(k) && forall|j: u32| #[trigger] m.dom().contains(j) ==> k <= j;
        assert(is_oldest(m, k));
        assert(m.dom().contains(oldest_id(m)));
        assert(m.remove(oldest_id(m)).dom() =~= m.dom().remove(oldest_id(m)));
    }
}

// ── The `Notify` call ───────────────────────────────────────────────────────

/// The urgency a client's `urgency` hint selects: 0 is low, 2 critical,
/// anything else (or no hint) normal.
pub fn urgency_from_hint(hint: Option<u8>) -> (u: Urgency)
    ensures
        u == urgency_of(hint),
{
    match hint {
        Some(0) => Urgency::Low,
        Some(2) => Urgency::Critical,
        _ => Urgency::Normal,
    }
}

/// The actions of a `Notify` call, read as (key, label) pairs.
pub fn parse_actions(actions: &[String]) -> (v: Vec<NotificationAction>)
    ensures
        v@ == actions_of(actions@),
{
    let mut out: Vec<NotificationAction> = Vec::new();
    let mut i: usize = 0;
    let n = actions.len() / 2;
    while i < n
        invariant
            n == actions.len() / 2,
            0 <= i <= n,
            out@ == actions_of(actions@).subrange(0, i as int),
        decreases n - i,
    {
        out.push(NotificationAction { key: actions[2 * i].clone(), label: actions[2 * i + 1].clone() });
        i = i + 1;
        assert(out@ =~= actions_of(actions@).subrange(0, i as int));
    }
    assert(actions_of(actions@).subrange(0, n as int) =~= actions_of(actions@));
    out
}

/// The timeout of a notification: the daemon's default when the client
/// asks for it with -1, the client's value otherwise.
pub fn effective_timeout(expire_timeout: i32, default_timeout_ms: i32) -> (t: i32)
    ensures
        t == if expire_timeout == -1 {
            default_timeout_ms
        } else {
            expire_timeout
        },
{
    if expire_timeout == -1 {
        default_timeout_ms
    } else {
        expire_timeout
    }
}

/// Store a notification received with `Notify` (its id is the id it
/// replaces, 0 for none) and return its id and the event to broadcast:
/// `Replaced` when a stored notification with that id was replaced,
/// `New` otherwise.
pub fn receive_notification(store: &mut NotifyStore, notif: Notification) -> (r: (u32, NotifyEvent))
    requires
        old(store).wf(),
        notif.id == 0 ==> old(store).next() < u32::MAX,
    ensures
        final(store).wf(),
        ({
            let replaced = notif.id != 0 && old(store)@.contains_key(notif.id);
            let removed = if replaced {
                old(store)@.remove(notif.id)
            } else {
                old(store)@
            };
            &&& r.0 == if notif.id == 0 {
                old(store).next()
            } else {
                notif.id
            }
            &&& final(store)@.dom() == after_eviction(removed, old(store).capacity()).dom().insert(r.0)
            &&& stored_as(notif, r.0, final(store)@[r.0])
            &&& match r.1 {
                NotifyEvent::Replaced { notification } => replaced && stored_as(notif, r.0, notification),
                NotifyEvent::New { notification } => !replaced && stored_as(notif, r.0, notification),
                _ => false,
            }
        }),
{
    let replaces_id = notif.id;
    let ghost start = store@;
    let is_replace = replaces_id != 0 && store.remove(replaces_id).is_some();
    proof {
        if !is_replace {
            assert(store@ =~= start);
        }
    }
    let copy = copy_notification(&notif);
    let id = store.insert(notif);
    let mut announced = copy;
    announced.id = id;
    if is_replace {
        (id, NotifyEvent::Replaced { notification: announced })
    } else {
        (id, NotifyEvent::New { notification: announced })
    }
}

} // verus!
