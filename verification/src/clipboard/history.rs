//! In-memory clipboard history, newest entry first, deduplicated by content hash.
use vstd::prelude::*;
use vstd::utf8::{decode_utf8, encode_utf8, is_char_boundary};
use crate::ipc::types::ClipEntry;
use crate::text::{
    chars_of, concat_strs, decimal, join, join_with, starts_with, string_of, trim, trim_chars,
    u64_to_decimal, words, words_of, append_chars,
};

verus! {

/// Largest content, in bytes, the history accepts.
pub const MAX_ENTRY_BYTES: usize = 5242880;

// ── Hashing ─────────────────────────────────────────────────────────────────

/// The history's content hash: starting from a fixed seed, each byte first
/// multiplies the hash by the 64-bit FNV prime (wrapping), then is XORed in.
pub open spec fn clip_hash_from(h: u64, data: Seq<u8>) -> u64
    decreases data.len(),
{
    if data.len() == 0 {
        h
    } else {
        clip_hash_from(h.wrapping_mul(0x100000001b3) ^ (data[0] as u64), data.drop_first())
    }
}

pub open spec fn clip_hash(data: Seq<u8>) -> u64 {
    clip_hash_from(0x1234567890abcdef, data)
}

/// The content hash the history deduplicates by.
pub fn compute_fnv_hash(data: &[u8]) -> (h: u64)
    ensures
        h == clip_hash(data@),
{
    let mut hash: u64 = 0x1234567890abcdef;
    let mut i: usize = 0;
    assert(data@.subrange(0, data@.len() as int) =~= data@);
    while i < data.len()
        invariant
            0 <= i <= data.len(),
            clip_hash(data@) == clip_hash_from(hash, data@.subrange(i as int, data@.len() as int)),
        decreases data.len() - i,
    {
        proof {
            let rest = data@.subrange(i as int, data@.len() as int);
            assert(rest.drop_first() =~= data@.subrange(i + 1, data@.len() as int));
            assert(rest[0] == data@[i as int]);
        }
        hash = hash.wrapping_mul(0x100000001b3);
        hash = hash ^ (data[i] as u64);
        i = i + 1;
    }
    proof {
        assert(data@.subrange(i as int, data@.len() as int) =~= Seq::<u8>::empty());
    }
    hash
}

// ── Previews ────────────────────────────────────────────────────────────────

pub open spec fn is_image_mime(mime: Seq<char>) -> bool {
    encode_utf8(mime).len() > 6 && starts_with(mime, "image/"@)
}

/// Whether a MIME type names an image (`image/...`, with a subtype).
pub fn is_image_mime_type(mime: &str) -> (b: bool)
    ensures
        b == is_image_mime(mime@),
{
    let prefix = chars_of("image/");
    mime.as_bytes().len() > 6 && crate::text::has_prefix(chars_of(mime).as_slice(), prefix.as_slice())
}

/// `n / d` rounded to the nearest integer, ties to the even neighbour.
pub open spec fn round_half_even(n: nat, d: nat) -> nat
    recommends
        d > 0,
{
    let q = n / d;
    let r = n % d;
    if 2 * r > d {
        q + 1
    } else if 2 * r == d && q % 2 == 1 {
        q + 1
    } else {
        q
    }
}

/// A byte count in B, KiB or MiB, rounded to a whole number.
pub open spec fn size_text(n: nat) -> Seq<char> {
    if n < 1024 {
        decimal(n) + " B"@
    } else if n < 1048576 {
        decimal(round_half_even(n, 1024)) + " KiB"@
    } else {
        decimal(round_half_even(n, 1048576)) + " MiB"@
    }
}

fn divide_rounded(n: u64, d: u64) -> (q: u64)
    requires
        d > 1,
    ensures
        q as nat == round_half_even(n as nat, d as nat),
{
    let q = n / d;
    let r = n % d;
    assert(q < 0xffff_ffff_ffff_ffff) by (nonlinear_arith)
        requires
            q == n / d,
            d > 1,
    ;
    if r > d - r {
        q + 1
    } else if r == d - r && q % 2 == 1 {
        q + 1
    } else {
        q
    }
}

/// A byte count as the history shows it, e.g. `512 B`, `3 KiB`, `2 MiB`.
///
/// The count is divided by 1024 while it is at least 1024, at most twice, and
/// printed rounded to a whole number with ties to even; below 2^53 bytes this
/// is exactly what the floating-point computation prints.
pub fn format_size(size: usize) -> (s: String)
    requires
        size < 0x20_0000_0000_0000,
    ensures
        s@ == size_text(size as nat),
{
    let n = size as u64;
    let (value, unit) = if n < 1024 {
        (n, " B")
    } else if n < 1048576 {
        (divide_rounded(n, 1024), " KiB")
    } else {
        (divide_rounded(n, 1048576), " MiB")
    };
    let mut v = u64_to_decimal(value);
    append_chars(&mut v, chars_of(unit).as_slice());
    string_of(v.as_slice())
}

/// The one-line text of a content: its words joined by single spaces.
pub open spec fn flat_text(content: Seq<char>) -> Seq<char> {
    join(words(trim(content)), " "@)
}

/// Whether the preview of a text content can be cut at 100 bytes: the flat
/// text is at most 100 bytes long, or its 100th byte ends a character.
pub open spec fn preview_cut_ok(content: Seq<char>, mime: Seq<char>) -> bool {
    let b = encode_utf8(flat_text(content));
    is_image_mime(mime) || b.len() <= 100 || is_char_boundary(b, 100)
}

/// The preview shown for an entry: the size of an image, or the flat text
/// cut to its first 100 bytes with an ellipsis.
pub open spec fn preview_spec(content: Seq<char>, mime: Seq<char>) -> Seq<char> {
    if is_image_mime(mime) {
        "[[ image "@ + size_text(encode_utf8(content).len()) + " ]]"@
    } else {
        let t = flat_text(content);
        let b = encode_utf8(t);
        if b.len() > 100 {
            decode_utf8(b.subrange(0, 100)) + "…"@
        } else {
            t
        }
    }
}

/// The preview shown for an entry.
pub fn make_preview(content: &str, mime: &str) -> (s: String)
    requires
        preview_cut_ok(content@, mime@),
        encode_utf8(content@).len() < 0x20_0000_0000_0000,
    ensures
        s@ == preview_spec(content@, mime@),
{
    if is_image_mime_type(mime) {
        let size = content.as_bytes().len();
        let mut v = chars_of("[[ image ");
        append_chars(&mut v, chars_of(format_size(size).as_str()).as_slice());
        append_chars(&mut v, chars_of(" ]]").as_slice());
        return string_of(v.as_slice());
    }
    let trimmed = trim_chars(chars_of(content).as_slice());
    let ws = words_of(trimmed.as_slice());
    let joined = join_with(&ws, chars_of(" ").as_slice());
    let text = string_of(joined.as_slice());
    let t = text.as_str();
    if t.as_bytes().len() > 100 {
        let (head, _) = t.split_at(100);
        proof {
            vstd::utf8::encode_utf8_decode_utf8(head@);
        }
        concat_strs(head, "…")
    } else {
        text
    }
}

// ── History ─────────────────────────────────────────────────────────────────

/// One remembered clipboard content.
#[derive(Debug, Clone)]
pub struct Entry {
    pub id: u64,
    pub content: String,
    pub mime: String,
    pub preview: String,
    pub size: usize,
    pub timestamp_ms: u64,
    pub is_image: bool,
    pub hash: u64,
}

/// The clipboard history, newest entry first, at most `capacity` entries,
/// no two with the same content hash.
#[derive(Debug, Clone)]
pub struct ClipHistory {
    entries: Vec<Entry>,
    capacity: usize,
}

pub open spec fn has_hash(entries: Seq<Entry>, hash: u64) -> bool {
    exists|k: int| 0 <= k < entries.len() && (#[trigger] entries[k]).hash == hash
}

pub open spec fn distinct_hashes(entries: Seq<Entry>) -> bool {
    forall|i: int, j: int|
        0 <= i < j < entries.len() ==> (#[trigger] entries[i]).hash != (#[trigger] entries[j]).hash
}

/// Each entry's hash is the hash of its content.
pub open spec fn hashed_by_content(entries: Seq<Entry>) -> bool {
    forall|i: int|
        0 <= i < entries.len() ==> (#[trigger] entries[i]).hash == clip_hash(encode_utf8(entries[i].content@))
}

/// The entry the history makes of a new content.
pub open spec fn new_entry(e: Entry, content: String, mime: String, now_ms: u64) -> bool {
    &&& e.id == 0
    &&& e.content == content
    &&& e.mime == mime
    &&& e.preview@ == preview_spec(content@, mime@)
    &&& e.size == encode_utf8(content@).len()
    &&& e.timestamp_ms == now_ms
    &&& e.is_image == is_image_mime(mime@)
    &&& e.hash == clip_hash(encode_utf8(content@))
}

/// The public view of an entry.
pub open spec fn clip_entry_of(c: ClipEntry, e: Entry) -> bool {
    c.content == e.content && c.mime == e.mime && c.timestamp_ms == e.timestamp_ms
}

impl ClipHistory {
    pub closed spec fn items(&self) -> Seq<Entry> {
        self.entries@
    }

    pub closed spec fn cap(&self) -> nat {
        self.capacity as nat
    }

    /// The history's invariant: each entry's hash is its content's hash, the
    /// hashes are distinct, and there are no more than `capacity` entries when
    /// the capacity is positive.
    pub open spec fn wf(&self) -> bool {
        &&& hashed_by_content(self.items())
        &&& distinct_hashes(self.items())
        &&& (self.cap() > 0 ==> self.items().len() <= self.cap())
    }

    /// An empty history that keeps at most `capacity` entries.
    pub fn new(capacity: usize) -> (h: Self)
        ensures
            h.items() == Seq::<Entry>::empty(),
            h.cap() == capacity,
            h.wf(),
    {
        ClipHistory { entries: Vec::new(), capacity }
    }

    /// Record a new content at time `now_ms`. Contents whose hash is already
    /// in the history, and contents over 5 MiB, are ignored; otherwise the
    /// oldest entries make room and the new entry becomes the newest.
    pub fn push_at(&mut self, content: String, mime: String, now_ms: u64)
        requires
            old(self).wf(),
            !has_hash(old(self).items(), clip_hash(encode_utf8(content@))) && encode_utf8(content@).len()
                <= MAX_ENTRY_BYTES ==> old(self).cap() > 0 && preview_cut_ok(content@, mime@),
        ensures
            final(self).wf(),
            final(self).cap() == old(self).cap(),
            ({
                let h = clip_hash(encode_utf8(content@));
                if has_hash(old(self).items(), h) || encode_utf8(content@).len() > MAX_ENTRY_BYTES {
                    final(self).items() == old(self).items()
                } else {
                    let kept = if old(self).items().len() < old(self).cap() {
                        old(self).items().len()
                    } else {
                        (old(self).cap() - 1) as nat
                    };
                    &&& final(self).items().len() == kept + 1
                    &&& new_entry(final(self).items()[0], content, mime, now_ms)
                    &&& final(self).items().drop_first() == old(self).items().take(kept as int)
                }
            }),
    {
        let bytes = content.as_str().as_bytes();
        let hash = compute_fnv_hash(bytes);
        let size = content.as_str().as_bytes().len();
        if self.contains_hash(hash) {
            return;
        }
        if size > MAX_ENTRY_BYTES {
            return;
        }
        let ghost old_items = self.entries@;
        while self.entries.len() >= self.capacity
            invariant
                self.capacity > 0,
                self.capacity == old(self).capacity,
                self.entries@.len() <= old_items.len(),
                self.entries@ == old_items.take(self.entries@.len() as int),
                old_items.len() >= self.capacity ==> self.entries@.len() >= self.capacity - 1,
                old_items.len() < self.capacity ==> self.entries@ == old_items,
            decreases self.entries.len(),
        {
            self.entries.pop();
        }
        let preview = make_preview(content.as_str(), mime.as_str());
        let is_image = is_image_mime_type(mime.as_str());
        let entry = Entry {
            id: 0,
            content,
            mime,
            preview,
            size,
            timestamp_ms: now_ms,
            is_image,
            hash,
        };
        let ghost kept = self.entries@;
        self.entries.insert(0, entry);
        proof {
            assert(self.entries@.drop_first() =~= kept);
            assert forall|i: int| 0 <= i < self.entries@.len() implies (#[trigger] self.entries@[i]).hash
                == clip_hash(encode_utf8(self.entries@[i].content@)) by {
                if i > 0 {
                    assert(self.entries@[i] == kept[i - 1]);
                    assert(kept[i - 1] == old_items[i - 1]);
                }
            }
            assert forall|i: int, j: int|
                0 <= i < j < self.entries@.len() implies (#[trigger] self.entries@[i]).hash
                != (#[trigger] self.entries@[j]).hash by {
                if i == 0 {
                    assert(self.entries@[j] == kept[j - 1]);
                    assert(kept[j - 1] == old_items[j - 1]);
                } else {
                    assert(self.entries@[i] == kept[i - 1]);
                    assert(self.entries@[j] == kept[j - 1]);
                    assert(kept[i - 1] == old_items[i - 1]);
                    assert(kept[j - 1] == old_items[j - 1]);
                }
            }
        }
    }

    /// Record a new content, stamped with the current time.
    pub fn push(&mut self, content: String, mime: String)
        requires
            old(self).wf(),
            !has_hash(old(self).items(), clip_hash(encode_utf8(content@))) && encode_utf8(content@).len()
                <= MAX_ENTRY_BYTES ==> old(self).cap() > 0 && preview_cut_ok(content@, mime@),
        ensures
            final(self).wf(),
            final(self).cap() == old(self).cap(),
            ({
                let h = clip_hash(encode_utf8(content@));
                if has_hash(old(self).items(), h) || encode_utf8(content@).len() > MAX_ENTRY_BYTES {
                    final(self).items() == old(self).items()
                } else {
                    let kept = if old(self).items().len() < old(self).cap() {
                        old(self).items().len()
                    } else {
                        (old(self).cap() - 1) as nat
                    };
                    &&& final(self).items().len() == kept + 1
                    &&& final(self).items()[0].content == content
                    &&& final(self).items()[0].mime == mime
                    &&& final(self).items()[0].preview@ == preview_spec(content@, mime@)
                    &&& final(self).items()[0].is_image == is_image_mime(mime@)
                    &&& final(self).items()[0].hash == h
                    &&& exists|now: u64| #[trigger] new_entry(final(self).items()[0], content, mime, now)
                    &&& final(self).items().drop_first() == old(self).items().take(kept as int)
                }
            }),
    {
        let now = crate::clock::now_ms();
        self.push_at(content, mime, now);
    }

    /// The entries, newest first, as the API reports them.
    pub fn list(&self) -> (out: Vec<ClipEntry>)
        ensures
            out@.len() == self.items().len(),
            forall|k: int| 0 <= k < out@.len() ==> clip_entry_of(#[trigger] out@[k], self.items()[k]),
    {
        let mut out: Vec<ClipEntry> = Vec::new();
        let mut i: usize = 0;
        while i < self.entries.len()
            invariant
                0 <= i <= self.entries@.len(),
                out@.len() == i,
                forall|k: int| 0 <= k < i ==> clip_entry_of(#[trigger] out@[k], self.entries@[k]),
            decreases self.entries.len() - i,
        {
            let e = &self.entries[i];
            out.push(
                ClipEntry {
                    content: e.content.clone(),
                    mime: e.mime.clone(),
                    timestamp_ms: e.timestamp_ms,
                },
            );
            i = i + 1;
        }
        out
    }

    /// The newest entry.
    pub fn latest(&self) -> (r: Option<ClipEntry>)
        ensures
            match r {
                Some(c) => self.items().len() > 0 && clip_entry_of(c, self.items()[0]),
                None => self.items().len() == 0,
            },
    {
        if self.entries.len() == 0 {
            None
        } else {
            let e = &self.entries[0];
            Some(
                ClipEntry {
                    content: e.content.clone(),
                    mime: e.mime.clone(),
                    timestamp_ms: e.timestamp_ms,
                },
            )
        }
    }

    /// Whether an entry with this content hash is in the history.
    pub fn contains_hash(&self, hash: u64) -> (b: bool)
        ensures
            b == has_hash(self.items(), hash),
    {
        let mut i: usize = 0;
        while i < self.entries.len()
            invariant
                0 <= i <= self.entries@.len(),
                forall|k: int| 0 <= k < i ==> (#[trigger] self.entries@[k]).hash != hash,
            decreases self.entries.len() - i,
        {
            if self.entries[i].hash == hash {
                return true;
            }
            i = i + 1;
        }
        false
    }

    /// Forget every entry.
    pub fn clear(&mut self)
        requires
            old(self).wf(),
        ensures
            final(self).items() == Seq::<Entry>::empty(),
            final(self).cap() == old(self).cap(),
            final(self).wf(),
    {
        self.entries.clear();
    }

    /// Forget the entry with this content hash; `false` when there is none.
    pub fn remove_by_hash(&mut self, hash: u64) -> (removed: bool)
        requires
            old(self).wf(),
        ensures
            removed == has_hash(old(self).items(), hash),
            final(self).items() == old(self).items().filter(|e: Entry| e.hash != hash),
            final(self).cap() == old(self).cap(),
            final(self).wf(),
    {
        if !self.contains_hash(hash) {
            proof {
                assert(self.entries@.filter(|e: Entry| e.hash != hash) =~= self.entries@) by {
                    lemma_filter_keeps_all(self.entries@, hash);
                }
            }
            return false;
        }
        let ghost old_items = self.entries@;
        let mut kept: Vec<Entry> = Vec::new();
        let mut i: usize = 0;
        while i < self.entries.len()
            invariant
                0 <= i <= self.entries@.len(),
                self.entries@ == old_items,
                kept@ == old_items.subrange(0, i as int).filter(|e: Entry| e.hash != hash),
            decreases self.entries.len() - i,
        {
            proof {
                assert(old_items.subrange(0, i + 1).drop_last() =~= old_items.subrange(0, i as int));
                reveal_with_fuel(Seq::filter, 1);
            }
            if self.entries[i].hash != hash {
                kept.push(self.entries[i].clone_entry());
            }
            i = i + 1;
        }
        proof {
            assert(old_items.subrange(0, old_items.len() as int) =~= old_items);
        }
        self.entries = kept;
        proof {
            lemma_filter_subseq_distinct(old_items, hash);
            let f = old_items.filter(|e: Entry| e.hash != hash);
            assert forall|i: int| 0 <= i < f.len() implies (#[trigger] f[i]).hash == clip_hash(
                encode_utf8(f[i].content@),
            ) by {
                assert(f.contains(f[i]));
                old_items.lemma_filter_contains_rev(|e: Entry| e.hash != hash, f[i]);
                let k = choose|k: int| 0 <= k < old_items.len() && old_items[k] == f[i];
                assert(old_items[k].hash == clip_hash(encode_utf8(old_items[k].content@)));
            }
        }
        true
    }
}

/// In a well-formed history, an entry carries the hash `x` exactly when some
/// entry's content hashes to `x`.
pub proof fn history_hash_is_content_hash(h: ClipHistory, x: u64)
    requires
        h.wf(),
    ensures
        has_hash(h.items(), x) <==> exists|k: int|
            0 <= k < h.items().len() && clip_hash(encode_utf8((#[trigger] h.items()[k]).content@)) == x,
{
    if has_hash(h.items(), x) {
        let k = choose|k: int| 0 <= k < h.items().len() && (#[trigger] h.items()[k]).hash == x;
        assert(clip_hash(encode_utf8(h.items()[k].content@)) == x);
    }
    if exists|k: int|
        0 <= k < h.items().len() && clip_hash(encode_utf8((#[trigger] h.items()[k]).content@)) == x {
        let k = choose|k: int|
            0 <= k < h.items().len() && clip_hash(encode_utf8((#[trigger] h.items()[k]).content@)) == x;
        assert(h.items()[k].hash == x);
    }
}

impl Entry {
    /// A copy of the entry.
    pub fn clone_entry(&self) -> (e: Entry)
        ensures
            e == *self,
    {
        Entry {
            id: self.id,
            content: self.content.clone(),
            mime: self.mime.clone(),
            preview: self.preview.clone(),
            size: self.size,
            timestamp_ms: self.timestamp_ms,
            is_image: self.is_image,
            hash: self.hash,
        }
    }
}

proof fn lemma_filter_keeps_all(s: Seq<Entry>, hash: u64)
    requires
        !has_hash(s, hash),
    ensures
        s.filter(|e: Entry| e.hash != hash) == s,
    decreases s.len(),
{
    reveal_with_fuel(Seq::filter, 1);
    if s.len() > 0 {
        assert(!has_hash(s.drop_last(), hash)) by {
            if has_hash(s.drop_last(), hash) {
                let k = choose|k: int|
                    0 <= k < s.drop_last().len() && (#[trigger] s.drop_last()[k]).hash == hash;
                assert(s[k] == s.drop_last()[k]);
            }
        }
        lemma_filter_keeps_all(s.drop_last(), hash);
        assert(s.last().hash != hash) by {
            assert(s[s.len() - 1] == s.last());
        }
        assert(s.drop_last().push(s.last()) =~= s);
    }
}

proof fn lemma_filter_subseq_distinct(s: Seq<Entry>, hash: u64)
    requires
        distinct_hashes(s),
    ensures
        distinct_hashes(s.filter(|e: Entry| e.hash != hash)),
        s.filter(|e: Entry| e.hash != hash).len() <= s.len(),
    decreases s.len(),
{
    reveal_with_fuel(Seq::filter, 1);
    if s.len() > 0 {
        let t = s.drop_last();
        assert(distinct_hashes(t)) by {
            assert forall|i: int, j: int|
                0 <= i < j < t.len() implies (#[trigger] t[i]).hash != (#[trigger] t[j]).hash by {
                assert(t[i] == s[i]);
                assert(t[j] == s[j]);
            }
        }
        lemma_filter_subseq_distinct(t, hash);
        let ft = t.filter(|e: Entry| e.hash != hash);
        if s.last().hash != hash {
            let f = ft.push(s.last());
            assert forall|i: int, j: int|
                0 <= i < j < f.len() implies (#[trigger] f[i]).hash != (#[trigger] f[j]).hash by {
                if j == f.len() - 1 {
                    // every element of the filtered prefix comes from the prefix
                    assert(f[i] == ft[i]);
                    assert(ft.contains(f[i]));
                    t.lemma_filter_contains_rev(|e: Entry| e.hash != hash, f[i]);
                    let k = choose|k: int| 0 <= k < t.len() && t[k] == f[i];
                    assert(s[k] == t[k]);
                    assert(s[s.len() - 1] == s.last());
                } else {
                    assert(f[i] == ft[i]);
                    assert(f[j] == ft[j]);
                }
            }
        }
    }
}

} // verus!
