//! The clipboard history that the daemon serves: newest entry first, one
//! entry per content, bounded in length, with pinned entries that cannot be
//! deleted and survive clearing.
use vstd::prelude::*;
use std::collections::VecDeque;
use std::hash::{Hash, Hasher};
use crate::text::same_text;

verus! {

/// A clipboard entry as the daemon serves it.
#[derive(Debug, Clone)]
pub struct ClipboardEntry {
    pub id: String,
    pub content: String,
    pub preview: String,
    pub mime: String,
    pub size: usize,
    pub is_image: bool,
    pub timestamp_ms: u64,
    pub pinned: bool,
}

/// The hash under which the store tells contents apart.
pub uninterp spec fn content_hash_of(content: Seq<char>) -> u64;

/// `DefaultHasher::new()` fed with `content` (`str::hash`), finished. The
/// hasher starts from fixed keys, so the value is a function of the text;
/// which function is left unsaid.
#[verifier::external_body]
fn hash_content(content: &str) -> (h: u64)
    ensures
        h == content_hash_of(content@),
{
    let mut hasher = std::collections::hash_map::DefaultHasher::new();
    content.hash(&mut hasher);
    hasher.finish()
}

/// A copy of an entry.
pub fn copy_entry(e: &ClipboardEntry) -> (r: ClipboardEntry)
    ensures
        r == *e,
{
    ClipboardEntry {
        id: e.id.clone(),
        content: e.content.clone(),
        preview: e.preview.clone(),
        mime: e.mime.clone(),
        size: e.size,
        is_image: e.is_image,
        timestamp_ms: e.timestamp_ms,
        pinned: e.pinned,
    }
}

// ── Specifications ──────────────────────────────────────────────────────────

pub open spec fn other_content(h: u64) -> spec_fn(ClipboardEntry) -> bool {
    |e: ClipboardEntry| content_hash_of(e.content@) != h
}

pub open spec fn other_id(id: Seq<char>) -> spec_fn(ClipboardEntry) -> bool {
    |e: ClipboardEntry| e.id@ != id
}

pub open spec fn pinned_in(ids: Seq<Seq<char>>) -> spec_fn(ClipboardEntry) -> bool {
    |e: ClipboardEntry| ids.contains(e.id@)
}

/// The first `n` entries, or all of them when there are fewer.
pub open spec fn at_most(s: Seq<ClipboardEntry>, n: int) -> Seq<ClipboardEntry> {
    if s.len() > n {
        s.take(n)
    } else {
        s
    }
}

/// The history after `e` was added: `e` first, then the older entries with
/// other contents, cut to `max` entries.
pub open spec fn added(s: Seq<ClipboardEntry>, e: ClipboardEntry, max: usize) -> Seq<ClipboardEntry> {
    at_most(seq![e] + s.filter(other_content(content_hash_of(e.content@))), max as int)
}

/// Position of the first entry with this id.
pub open spec fn id_index(s: Seq<ClipboardEntry>, id: Seq<char>) -> int
    decreases s.len(),
{
    if s.len() == 0 {
        0
    } else if s[0].id@ == id {
        0
    } else {
        1 + id_index(s.drop_first(), id)
    }
}

/// The history with the first entry of this id marked pinned or not.
pub open spec fn flagged(s: Seq<ClipboardEntry>, id: Seq<char>, pinned: bool) -> Seq<ClipboardEntry> {
    let i = id_index(s, id);
    if i < s.len() {
        s.update(i, ClipboardEntry { pinned, ..s[i] })
    } else {
        s
    }
}

proof fn lemma_id_index(s: Seq<ClipboardEntry>, id: Seq<char>, i: int)
    requires
        0 <= i <= s.len(),
        i < s.len() ==> s[i].id@ == id,
        forall|k: int| 0 <= k < i ==> (#[trigger] s[k]).id@ != id,
    ensures
        id_index(s, id) == i,
    decreases i,
{
    if i > 0 {
        assert forall|k: int| 0 <= k < i - 1 implies (#[trigger] s.drop_first()[k]).id@ != id by {
            assert(s.drop_first()[k] == s[k + 1]);
        }
        lemma_id_index(s.drop_first(), id, i - 1);
    }
}


/// What adding an entry leaves in the history: the new entry first (when
/// the history holds any entry at all), no other entry with its content,
/// and never more than the size limit.
pub proof fn added_entry_leads_alone(s: Seq<ClipboardEntry>, e: ClipboardEntry, max: usize)
    ensures
        added(s, e, max).len() <= max,
        max > 0 ==> added(s, e, max)[0] == e,
        forall|i: int|
            1 <= i < added(s, e, max).len() ==> content_hash_of(#[trigger] added(s, e, max)[i].content@)
                != content_hash_of(e.content@),
{
    let f = s.filter(other_content(content_hash_of(e.content@)));
    let full = seq![e] + f;
    assert forall|i: int| 1 <= i < added(s, e, max).len() implies content_hash_of(
        #[trigger] added(s, e, max)[i].content@,
    ) != content_hash_of(e.content@) by {
        assert(added(s, e, max)[i] == full[i]);
        assert(full[i] == f[i - 1]);
        assert(f.contains(f[i - 1]));
        broadcast use vstd::seq_lib::group_filter_ensures;
    }
}

/// The clipboard history and the set of pinned ids.
pub struct ClipboardStore {
    entries: VecDeque<ClipboardEntry>,
    pinned_ids: Vec<String>,
    max_entries: usize,
    max_pinned: usize,
}

impl ClipboardStore {
    /// The entries, newest first.
    pub closed spec fn history(&self) -> Seq<ClipboardEntry> {
        self.entries@
    }

    /// The pinned ids.
    pub closed spec fn pinned(&self) -> Seq<Seq<char>> {
        self.pinned_ids@.map_values(|s: String| s@)
    }

    pub closed spec fn max_entries_spec(&self) -> usize {
        self.max_entries
    }

    pub closed spec fn max_pinned_spec(&self) -> usize {
        self.max_pinned
    }

    /// No id is pinned twice.
    pub open spec fn wf(&self) -> bool {
        self.pinned().no_duplicates()
    }

    pub fn new(max_entries: usize, max_pinned: usize) -> (s: Self)
        ensures
            s.history() == Seq::<ClipboardEntry>::empty(),
            s.pinned() == Seq::<Seq<char>>::empty(),
            s.max_entries_spec() == max_entries,
            s.max_pinned_spec() == max_pinned,
            s.wf(),
    {
        let s = ClipboardStore {
            entries: VecDeque::new(),
            pinned_ids: Vec::new(),
            max_entries,
            max_pinned,
        };
        assert(s.pinned() =~= Seq::<Seq<char>>::empty());
        s
    }

    /// Add an entry at the front; an older entry with the same content
    /// leaves, and the oldest entries leave beyond the size limit.
    pub fn add_entry(&mut self, entry: ClipboardEntry)
        ensures
            final(self).history() == added(old(self).history(), entry, old(self).max_entries_spec()),
            final(self).pinned() == old(self).pinned(),
            final(self).max_entries_spec() == old(self).max_entries_spec(),
            final(self).max_pinned_spec() == old(self).max_pinned_spec(),
    {
        let h = hash_content(entry.content.as_str());
        let ghost old_items = self.entries@;
        let mut kept: VecDeque<ClipboardEntry> = VecDeque::new();
        let mut i: usize = 0;
        while i < self.entries.len()
            invariant
                0 <= i <= self.entries@.len(),
                self.entries@ == old_items,
                h == content_hash_of(entry.content@),
                kept@ == old_items.subrange(0, i as int).filter(other_content(h)),
            decreases self.entries.len() - i,
        {
            proof {
                assert(old_items.subrange(0, i + 1).drop_last() =~= old_items.subrange(0, i as int));
                reveal_with_fuel(Seq::filter, 1);
            }
            let e = &self.entries[i];
            if hash_content(e.content.as_str()) != h {
                kept.push_back(copy_entry(e));
            }
            i = i + 1;
        }
        proof {
            assert(old_items.subrange(0, old_items.len() as int) =~= old_items);
        }
        kept.push_front(entry);
        while kept.len() > self.max_entries
            invariant
                kept@.len() >= self.max_entries ==> kept@ == (seq![entry] + old_items.filter(other_content(h))).take(kept@.len() as int),
                kept@.len() < self.max_entries ==> kept@ == seq![entry] + old_items.filter(other_content(h)),
                kept@.len() <= (seq![entry] + old_items.filter(other_content(h))).len(),
            decreases kept.len(),
        {
            let _ = kept.pop_back();
        }
        proof {
            let full = seq![entry] + old_items.filter(other_content(h));
            if full.len() > self.max_entries {
                assert(kept@ =~= full.take(self.max_entries as int));
            } else {
                assert(kept@ =~= full);
            }
        }
        self.entries = kept;
    }

    /// The newest `limit` entries (all of them when there are fewer).
    pub fn get_history(&self, limit: usize) -> (v: Vec<ClipboardEntry>)
        ensures
            v@ == at_most(self.history(), limit as int),
    {
        let mut out: Vec<ClipboardEntry> = Vec::new();
        let mut i: usize = 0;
        while i < self.entries.len() && i < limit
            invariant
                0 <= i <= self.entries@.len(),
                i <= limit,
                out@ == self.entries@.subrange(0, i as int),
            decreases self.entries.len() - i,
        {
            out.push(copy_entry(&self.entries[i]));
            i = i + 1;
            assert(out@ =~= self.entries@.subrange(0, i as int));
        }
        proof {
            if self.entries@.len() > limit {
                assert(out@ =~= self.entries@.take(limit as int));
            } else {
                assert(out@ =~= self.entries@);
            }
        }
        out
    }

    /// Whether this id is pinned.
    pub fn is_pinned(&self, id: &str) -> (b: bool)
        ensures
            b == self.pinned().contains(id@),
    {
        let mut i: usize = 0;
        while i < self.pinned_ids.len()
            invariant
                0 <= i <= self.pinned_ids@.len(),
                forall|k: int| 0 <= k < i ==> self.pinned()[k] != id@,
            decreases self.pinned_ids.len() - i,
        {
            if same_text(self.pinned_ids[i].as_str(), id) {
                proof {
                    assert(self.pinned()[i as int] == id@);
                }
                return true;
            }
            i = i + 1;
        }
        false
    }

    pub fn pinned_count(&self) -> (n: usize)
        ensures
            n == self.pinned().len(),
    {
        self.pinned_ids.len()
    }

    /// Delete the entries with this id, unless it is pinned; `true` when an
    /// entry left.
    pub fn delete_entry(&mut self, id: &str) -> (deleted: bool)
        ensures
            final(self).pinned() == old(self).pinned(),
            final(self).max_entries_spec() == old(self).max_entries_spec(),
            final(self).max_pinned_spec() == old(self).max_pinned_spec(),
            if old(self).pinned().contains(id@) {
                !deleted && final(self).history() == old(self).history()
            } else {
                final(self).history() == old(self).history().filter(other_id(id@))
                    && deleted == (final(self).history().len() < old(self).history().len())
            },
    {
        if self.is_pinned(id) {
            return false;
        }
        let ghost old_items = self.entries@;
        let mut kept: VecDeque<ClipboardEntry> = VecDeque::new();
        let mut i: usize = 0;
        while i < self.entries.len()
            invariant
                0 <= i <= self.entries@.len(),
                self.entries@ == old_items,
                kept@ == old_items.subrange(0, i as int).filter(other_id(id@)),
            decreases self.entries.len() - i,
        {
            proof {
                assert(old_items.subrange(0, i + 1).drop_last() =~= old_items.subrange(0, i as int));
                reveal_with_fuel(Seq::filter, 1);
            }
            let e = &self.entries[i];
            if !same_text(e.id.as_str(), id) {
                kept.push_back(copy_entry(e));
            }
            i = i + 1;
        }
        proof {
            assert(old_items.subrange(0, old_items.len() as int) =~= old_items);
        }
        let before = self.entries.len();
        self.entries = kept;
        self.entries.len() < before
    }

    /// Drop every entry that is not pinned.
    pub fn clear_history(&mut self)
        ensures
            final(self).history() == old(self).history().filter(pinned_in(old(self).pinned())),
            final(self).pinned() == old(self).pinned(),
            final(self).max_entries_spec() == old(self).max_entries_spec(),
            final(self).max_pinned_spec() == old(self).max_pinned_spec(),
    {
        let ghost old_items = self.entries@;
        let ghost ids = self.pinned();
        let mut kept: VecDeque<ClipboardEntry> = VecDeque::new();
        let mut i: usize = 0;
        while i < self.entries.len()
            invariant
                0 <= i <= self.entries@.len(),
                self.entries@ == old_items,
                self.pinned() == ids,
                kept@ == old_items.subrange(0, i as int).filter(pinned_in(ids)),
            decreases self.entries.len() - i,
        {
            proof {
                assert(old_items.subrange(0, i + 1).drop_last() =~= old_items.subrange(0, i as int));
                reveal_with_fuel(Seq::filter, 1);
            }
            let e = &self.entries[i];
            if self.is_pinned(e.id.as_str()) {
                kept.push_back(copy_entry(e));
            }
            i = i + 1;
        }
        proof {
            assert(old_items.subrange(0, old_items.len() as int) =~= old_items);
        }
        self.entries = kept;
    }

    /// Set the pinned flag of the first entry with this id.
    fn set_flag(&mut self, id: &str, pinned: bool)
        ensures
            final(self).history() == flagged(old(self).history(), id@, pinned),
            final(self).pinned() == old(self).pinned(),
            final(self).max_entries_spec() == old(self).max_entries_spec(),
            final(self).max_pinned_spec() == old(self).max_pinned_spec(),
    {
        let mut i: usize = 0;
        while i < self.entries.len()
            invariant
                0 <= i <= self.entries@.len(),
                self.entries@ == old(self).entries@,
                self.pinned_ids@ == old(self).pinned_ids@,
                self.max_entries == old(self).max_entries,
                self.max_pinned == old(self).max_pinned,
                forall|k: int| 0 <= k < i ==> (#[trigger] self.entries@[k]).id@ != id@,
            decreases self.entries.len() - i,
        {
            if same_text(self.entries[i].id.as_str(), id) {
                proof {
                    lemma_id_index(self.entries@, id@, i as int);
                }
                let e = self.entries.remove(i).unwrap();
                let changed = ClipboardEntry { pinned, ..e };
                self.entries.insert(i, changed);
                proof {
                    assert(self.entries@ =~= flagged(old(self).entries@, id@, pinned));
                }
                return;
            }
            i = i + 1;
        }
        proof {
            lemma_id_index(self.entries@, id@, i as int);
        }
    }

    /// Pin an id (and mark its entry), unless the pinned set is full.
    pub fn pin_entry(&mut self, id: &str) -> (r: Result<(), &'static str>)
        requires
            old(self).wf(),
        ensures
            final(self).wf(),
            final(self).max_entries_spec() == old(self).max_entries_spec(),
            final(self).max_pinned_spec() == old(self).max_pinned_spec(),
            match r {
                Ok(()) => old(self).pinned().len() < old(self).max_pinned_spec()
                    && final(self).pinned().to_set() == old(self).pinned().to_set().insert(id@)
                    && final(self).history() == flagged(old(self).history(), id@, true),
                Err(msg) => old(self).pinned().len() >= old(self).max_pinned_spec()
                    && msg@ == "max pinned entries reached"@
                    && final(self).pinned() == old(self).pinned()
                    && final(self).history() == old(self).history(),
            },
    {
        if self.pinned_ids.len() >= self.max_pinned {
            return Err("max pinned entries reached");
        }
        if !self.is_pinned(id) {
            let ghost before = self.pinned();
            self.pinned_ids.push(crate::text::string_of(crate::text::chars_of(id).as_slice()));
            proof {
                assert(self.pinned() =~= before.push(id@));
                before.lemma_push_to_set_commute(id@);
                assert forall|a: int, b: int| 0 <= a < self.pinned().len() && 0 <= b < self.pinned().len() && a != b
                    implies self.pinned()[a] != self.pinned()[b] by {
                    if a < before.len() && b < before.len() {
                    } else if a == before.len() {
                        assert(before[b] == self.pinned()[b]);
                    } else {
                        assert(before[a] == self.pinned()[a]);
                    }
                }
            }
        } else {
            proof {
                assert(self.pinned().to_set() =~= self.pinned().to_set().insert(id@));
            }
        }
        self.set_flag(id, true);
        Ok(())
    }

    /// Unpin an id (and unmark its entry).
    pub fn unpin_entry(&mut self, id: &str)
        requires
            old(self).wf(),
        ensures
            final(self).wf(),
            final(self).pinned().to_set() == old(self).pinned().to_set().remove(id@),
            final(self).history() == flagged(old(self).history(), id@, false),
            final(self).max_entries_spec() == old(self).max_entries_spec(),
            final(self).max_pinned_spec() == old(self).max_pinned_spec(),
    {
        let mut i: usize = 0;
        while i < self.pinned_ids.len()
            invariant
                0 <= i <= self.pinned_ids@.len(),
                self.pinned_ids@ == old(self).pinned_ids@,
                self.entries@ == old(self).entries@,
                self.max_entries == old(self).max_entries,
                self.max_pinned == old(self).max_pinned,
                self.wf(),
                forall|k: int| 0 <= k < i ==> self.pinned()[k] != id@,
            decreases self.pinned_ids.len() - i,
        {
            if same_text(self.pinned_ids[i].as_str(), id) {
                let ghost before = self.pinned();
                proof {
                    assert(before[i as int] == id@);
                }
                self.pinned_ids.remove(i);
                proof {
                    assert(self.pinned() =~= before.remove(i as int));
                    assert forall|a: int, b: int| 0 <= a < self.pinned().len() && 0 <= b < self.pinned().len() && a != b
                        implies self.pinned()[a] != self.pinned()[b] by {
                        let oa = if a < i { a } else { a + 1 };
                        let ob = if b < i { b } else { b + 1 };
                        assert(self.pinned()[a] == before[oa]);
                        assert(self.pinned()[b] == before[ob]);
                    }
                    assert forall|x: Seq<char>| self.pinned().contains(x) <==> before.to_set().remove(id@).contains(x) by {
                        if self.pinned().contains(x) {
                            let k = choose|k: int| 0 <= k < self.pinned().len() && self.pinned()[k] == x;
                            let ok = if k < i { k } else { k + 1 };
                            assert(before[ok] == x);
                            assert(ok != i);
                        }
                        if before.to_set().remove(id@).contains(x) {
                            let k = choose|k: int| 0 <= k < before.len() && before[k] == x;
                            assert(k != i);
                            if k < i {
                                assert(self.pinned()[k] == x);
                            } else {
                                assert(self.pinned()[k - 1] == x);
                            }
                        }
                    }
                    assert(self.pinned().to_set() =~= before.to_set().remove(id@));
                }
                self.set_flag(id, false);
                return;
            }
            i = i + 1;
        }
        proof {
            assert(!self.pinned().contains(id@));
            assert(self.pinned().to_set() =~= self.pinned().to_set().remove(id@));
        }
        self.set_flag(id, false);
    }

    /// The first entry with this id.
    pub fn get_entry(&self, id: &str) -> (r: Option<ClipboardEntry>)
        ensures
            match r {
                Some(e) => id_index(self.history(), id@) < self.history().len() && e == self.history()[id_index(
                    self.history(),
                    id@,
                )],
                None => id_index(self.history(), id@) == self.history().len(),
            },
    {
        let mut i: usize = 0;
        while i < self.entries.len()
            invariant
                0 <= i <= self.entries@.len(),
                forall|k: int| 0 <= k < i ==> (#[trigger] self.entries@[k]).id@ != id@,
            decreases self.entries.len() - i,
        {
            if same_text(self.entries[i].id.as_str(), id) {
                proof {
                    lemma_id_index(self.entries@, id@, i as int);
                }
                return Some(copy_entry(&self.entries[i]));
            }
            i = i + 1;
        }
        proof {
            lemma_id_index(self.entries@, id@, i as int);
        }
        None
    }
}

} // verus!
