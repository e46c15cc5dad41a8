//! The clipboard listener's decision on each change it reads: skip empty
//! content and content already seen (by its FNV hash, in memory or in the
//! store); otherwise remember the hash, store the content, and hand out the
//! entry to announce.
use vstd::prelude::*;
use vstd::utf8::encode_utf8;
use std::collections::HashSet;
use crate::clipboard::history::preview_cut_ok;
use crate::clipboard::storage::{
    compute_hash, fnv1a, hash_of_record, read_from, store_outcome, Entry, Storage, StorageError,
};
use crate::ipc::types::ClipEntry;

verus! {

/// Some reading of the records of `m` found one carrying the hash `h`.
pub open spec fn read_finds_hash(m: Map<Seq<u8>, Seq<u8>>, h: u64) -> bool {
    exists|ps: Seq<(Seq<u8>, Seq<u8>)>|
        #[trigger] read_from(m, ps) && exists|i: int| 0 <= i < ps.len() && hash_of_record(#[trigger] ps[i].1) == Some(h)
}

/// Some reading of the records of `m` found none carrying the hash `h`.
pub open spec fn read_misses_hash(m: Map<Seq<u8>, Seq<u8>>, h: u64) -> bool {
    exists|ps: Seq<(Seq<u8>, Seq<u8>)>|
        #[trigger] read_from(m, ps) && forall|i: int| 0 <= i < ps.len() ==> hash_of_record(#[trigger] ps[i].1) != Some(h)
}

/// The entry announced for a store's answer: the stored record's content,
/// MIME type and time when it stored one.
pub open spec fn announced(sr: Result<Option<Entry>, StorageError>) -> Option<ClipEntry> {
    match sr {
        Ok(Some(e)) => Some(ClipEntry { content: e.content, mime: e.mime, timestamp_ms: e.timestamp_ms }),
        _ => None,
    }
}

/// `after` and `r` are what storing `content` in `before` left and announced.
pub open spec fn stored_and_announced(
    before: Storage,
    after: Storage,
    content: String,
    mime: String,
    now_ms: u64,
    r: Option<ClipEntry>,
) -> bool {
    exists|sr: Result<Option<Entry>, StorageError>|
        #[trigger] store_outcome(before, after, content, mime, now_ms, sr) && r == announced(sr)
}

/// One clipboard change read at `now_ms`: the entry to announce, if any.
/// Empty content, and content whose hash is in `seen` or carried by a
/// record the store reads, is skipped with nothing changed. Otherwise the
/// hash joins `seen` and the content is stored (when there is a store); the
/// entry is announced when there is no store, or when the store made it.
pub fn accept_clip_change(
    seen: &mut HashSet<u64>,
    storage: &mut Option<Storage>,
    content: String,
    mime: String,
    now_ms: u64,
) -> (r: Option<ClipEntry>)
    requires
        encode_utf8(content@).len() < 0x20_0000_0000_0000,
        *old(storage) matches Some(st) ==> (encode_utf8(content@).len() != 0 && encode_utf8(content@).len()
            <= st.size_limit() ==> preview_cut_ok(content@, mime@)),
    ensures
        ({
            let h = fnv1a(encode_utf8(content@));
            if encode_utf8(content@).len() == 0 || old(seen)@.contains(h) {
                r is None && final(seen)@ == old(seen)@ && *final(storage) == *old(storage)
            } else {
                match *old(storage) {
                    None => {
                        &&& final(seen)@ == old(seen)@.insert(h)
                        &&& *final(storage) is None
                        &&& r == Some(ClipEntry { content, mime, timestamp_ms: now_ms })
                    },
                    Some(st) => match *final(storage) {
                        Some(st2) => {
                            ||| {
                                &&& r is None
                                &&& final(seen)@ == old(seen)@
                                &&& st2 == st
                                &&& read_finds_hash(st.contents(), h)
                            }
                            ||| {
                                &&& final(seen)@ == old(seen)@.insert(h)
                                &&& read_misses_hash(st.contents(), h)
                                &&& stored_and_announced(st, st2, content, mime, now_ms, r)
                            }
                        },
                        None => false,
                    },
                }
            }
        }),
{
    let size = content.as_str().as_bytes().len();
    if size == 0 {
        return None;
    }
    let h = compute_hash(content.as_str().as_bytes());
    if seen.contains(&h) {
        return None;
    }
    let taken = storage.take();
    match taken {
        Some(st0) => {
            let mut st = st0;
            let found = st.contains_hash(h);
            if found {
                proof {
                    let ps = choose|ps: Seq<(Seq<u8>, Seq<u8>)>|
                        #[trigger] read_from(st.contents(), ps) && (found <==> exists|i: int|
                            0 <= i < ps.len() && hash_of_record(#[trigger] ps[i].1) == Some(h));
                    assert(read_from(st.contents(), ps));
                    assert(read_finds_hash(st0.contents(), h));
                }
                *storage = Some(st);
                return None;
            }
            proof {
                let ps = choose|ps: Seq<(Seq<u8>, Seq<u8>)>|
                    #[trigger] read_from(st.contents(), ps) && (found <==> exists|i: int|
                        0 <= i < ps.len() && hash_of_record(#[trigger] ps[i].1) == Some(h));
                assert(read_from(st.contents(), ps));
            }
            seen.insert(h);
            let ghost c0 = content;
            let ghost m0 = mime;
            let sr = st.store_at(content, mime, now_ms);
            let out = match sr {
                Ok(Some(e)) => Some(ClipEntry { content: e.content, mime: e.mime, timestamp_ms: e.timestamp_ms }),
                _ => None,
            };
            proof {
                assert(store_outcome(st0, st, c0, m0, now_ms, sr));
                assert(stored_and_announced(st0, st, c0, m0, now_ms, out));
            }
            *storage = Some(st);
            out
        },
        None => {
            seen.insert(h);
            Some(ClipEntry { content, mime, timestamp_ms: now_ms })
        },
    }
}

} // verus!
