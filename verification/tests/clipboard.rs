use crawlds::clipboard::history::{
    compute_fnv_hash, format_size, is_image_mime_type, make_preview, ClipHistory,
};
use crawlds::clipboard::listener::accept_clip_change;
use std::collections::HashSet;
use crawlds::clipboard::storage::{
    any_has_hash, decode_entry, encode_entry, extract_hash, trim_targets, Entry, Storage,
    StorageError,
};

#[test]
fn sizes() {
    assert_eq!(format_size(100), "100 B");
    assert_eq!(format_size(1536), "2 KiB");
    assert_eq!(format_size(2560), "2 KiB");
    assert_eq!(format_size(1048576), "1 MiB");
    assert_eq!(format_size(0), "0 B");
}

#[test]
fn previews() {
    assert!(is_image_mime_type("image/png"));
    assert!(!is_image_mime_type("image/"));
    assert!(!is_image_mime_type("text/plain"));
    assert_eq!(make_preview("  hello \n\t world  ", "text/plain"), "hello world");
    assert_eq!(make_preview("abcd", "image/png"), "[[ image 4 B ]]");
    let long = "x".repeat(150);
    let p = make_preview(&long, "text/plain");
    assert_eq!(p, format!("{}…", "x".repeat(100)));
}

#[test]
fn fnv_hash() {
    assert_eq!(compute_fnv_hash(b""), 0x1234567890abcdef);
    assert_eq!(compute_fnv_hash(b"a"), 0x9abcddddd3eeed7c);
}

#[test]
fn history_dedupes_and_bounds() {
    let mut h = ClipHistory::new(2);
    h.push("one".to_string(), "text/plain".to_string());
    h.push("two".to_string(), "text/plain".to_string());
    h.push("one".to_string(), "text/plain".to_string());
    let list = h.list();
    assert_eq!(list.len(), 2);
    assert_eq!(list[0].content, "two");
    h.push("three".to_string(), "text/plain".to_string());
    let list = h.list();
    assert_eq!(list.len(), 2);
    assert_eq!(list[0].content, "three");
    assert_eq!(list[1].content, "two");
    assert_eq!(h.latest().unwrap().content, "three");
    let hash = compute_fnv_hash(b"two");
    assert!(h.contains_hash(hash));
    assert!(h.remove_by_hash(hash));
    assert!(!h.contains_hash(hash));
    assert!(!h.remove_by_hash(hash));
    h.clear();
    assert!(h.latest().is_none());
}

fn entry(id: u64, content: &str, hash: u64) -> Entry {
    Entry {
        id,
        content: content.to_string(),
        mime: "text/plain".to_string(),
        preview: content.to_string(),
        size: content.len(),
        timestamp_ms: 7,
        is_image: false,
        hash,
    }
}

#[test]
fn stored_records() {
    let e = entry(1, "hi", 0x1122334455667788);
    let rec = encode_entry(&e);
    assert_eq!(rec.len(), 8 + 4 + 2 + 1 + 4 + 10 + 4 + 2 + 8 + 1 + 8);
    assert_eq!(&rec[0..8], &[0, 0, 0, 0, 0, 0, 0, 1]);
    assert_eq!(&rec[8..12], &[0, 0, 0, 2]);
    assert_eq!(extract_hash(&rec), Some(0x1122334455667788));
    assert_eq!(extract_hash(&[1, 2, 3]), None);
    let records = vec![rec.clone(), encode_entry(&entry(2, "yo", 5))];
    assert!(any_has_hash(&records, 5));
    assert!(!any_has_hash(&records, 6));
}

#[test]
fn history_trimming() {
    let ids = vec![10, 40, 20, 30];
    let mut out = trim_targets(&ids, 2);
    out.sort();
    assert_eq!(out, vec![0, 2]);
}

fn temporary_store(max_history: usize, max_entry_size: usize) -> Storage {
    let db = sled::Config::new().temporary(true).open().expect("temporary database");
    Storage::from_db(db, max_history, max_entry_size)
}

#[test]
fn store_refuses_empty_and_oversized_content() {
    let mut s = temporary_store(10, 5);
    assert!(s.store("".to_string(), "text/plain".to_string()).unwrap().is_none());
    assert!(s.store("too long".to_string(), "text/plain".to_string()).unwrap().is_none());
    assert!(s.list().unwrap().is_empty());
}

#[test]
fn store_makes_a_record() {
    let mut s = temporary_store(10, 100);
    let e = s.store_at("hello".to_string(), "text/plain".to_string(), 1234).unwrap().unwrap();
    assert_eq!(e.content, "hello");
    assert_eq!(e.mime, "text/plain");
    assert_eq!(e.preview, "hello");
    assert_eq!(e.size, 5);
    assert_eq!(e.timestamp_ms, 1234);
    assert!(!e.is_image);
    assert_eq!(e.hash, 0xa430d84680aabd0b);
    assert!(s.contains_hash(e.hash));
    assert!(!s.contains_hash(e.hash ^ 1));
    let got = s.get(e.id).unwrap().unwrap();
    assert_eq!(got.id, e.id);
    assert_eq!(got.content, "hello");
    assert_eq!(got.mime, "text/plain");
    assert_eq!(got.preview, "hello");
    assert_eq!(got.size, 5);
    assert_eq!(got.timestamp_ms, 1234);
    assert!(!got.is_image);
    assert_eq!(got.hash, e.hash);
    assert_eq!(s.list().unwrap().len(), 1);
    assert!(s.get(e.id.wrapping_add(1000)).unwrap().is_none());
}

#[test]
fn encoded_records_decode_back() {
    let e = entry(1, "x", 9);
    let got = decode_entry(&encode_entry(&e)).unwrap();
    assert_eq!(got.id, 1);
    assert_eq!(got.content, "x");
    assert_eq!(got.mime, "text/plain");
    assert_eq!(got.preview, "x");
    assert_eq!(got.size, 1);
    assert_eq!(got.timestamp_ms, 7);
    assert!(!got.is_image);
    assert_eq!(got.hash, 9);
    let empty_mime = Entry { mime: String::new(), preview: String::new(), ..entry(2, "ab", 3) };
    let got = decode_entry(&encode_entry(&empty_mime)).unwrap();
    assert_eq!(got.content, "ab");
    assert_eq!(got.mime, "");
    assert!(decode_entry(&[0u8; 11]).is_err());
}

#[test]
fn stored_bytes_are_the_encoded_record() {
    let mut s = temporary_store(10, 100);
    let e = s.store_at("abc".to_string(), "text/plain".to_string(), 7).unwrap().unwrap();
    let a = s.get_checked(e.id).expect("decodable").unwrap().unwrap();
    let b = decode_entry(&encode_entry(&e)).unwrap();
    assert_eq!(a.id, b.id);
    assert_eq!(a.content, b.content);
    assert_eq!(a.timestamp_ms, b.timestamp_ms);
    assert_eq!(a.hash, b.hash);
}

#[test]
fn list_is_newest_first() {
    let mut s = temporary_store(10, 100);
    s.store_at("first".to_string(), "text/plain".to_string(), 100).unwrap();
    s.store_at("second".to_string(), "text/plain".to_string(), 300).unwrap();
    s.store_at("third".to_string(), "text/plain".to_string(), 200).unwrap();
    let listed = s.list_checked().expect("decodable").unwrap();
    let contents: Vec<&str> = listed.iter().map(|e| e.content.as_str()).collect();
    assert_eq!(contents, vec!["second", "third", "first"]);
}

#[test]
fn store_removes_older_duplicates() {
    let mut s = temporary_store(10, 100);
    let first = s.store_at("same".to_string(), "text/plain".to_string(), 1).unwrap().unwrap();
    s.store_at("other".to_string(), "text/plain".to_string(), 2).unwrap();
    let again = s.store_at("same".to_string(), "text/plain".to_string(), 3).unwrap().unwrap();
    assert_ne!(first.id, again.id);
    assert!(s.get(first.id).unwrap().is_none());
    assert_eq!(s.get(again.id).unwrap().unwrap().timestamp_ms, 3);
    let listed = s.list().unwrap();
    let contents: Vec<&str> = listed.iter().map(|e| e.content.as_str()).collect();
    assert_eq!(contents, vec!["same", "other"]);
}

#[test]
fn store_keeps_the_newest_records() {
    let mut s = temporary_store(2, 100);
    let a = s.store_at("a".to_string(), "text/plain".to_string(), 1).unwrap().unwrap();
    let b = s.store_at("b".to_string(), "text/plain".to_string(), 2).unwrap().unwrap();
    let c = s.store_at("c".to_string(), "text/plain".to_string(), 3).unwrap().unwrap();
    assert!(s.get(a.id).unwrap().is_none());
    assert!(s.get(b.id).unwrap().is_some());
    assert!(s.get(c.id).unwrap().is_some());
    assert_eq!(s.list().unwrap().len(), 2);
    assert!(!s.contains_hash(a.hash));
}

#[test]
fn delete_and_clear() {
    let mut s = temporary_store(10, 100);
    let e = s.store_at("gone".to_string(), "text/plain".to_string(), 1).unwrap().unwrap();
    let kept = s.store_at("kept".to_string(), "text/plain".to_string(), 2).unwrap().unwrap();
    assert!(s.delete(e.id).unwrap());
    assert!(s.get(e.id).unwrap().is_none());
    assert_eq!(s.get(kept.id).unwrap().unwrap().content, "kept");
    assert!(!s.delete(e.id).unwrap());
    assert!(!s.delete(e.id.wrapping_add(1000)).unwrap());
    s.clear().unwrap();
    assert!(s.list().unwrap().is_empty());
    assert!(s.get(kept.id).unwrap().is_none());
    assert!(!s.contains_hash(kept.hash));
}

#[test]
fn default_clipboard_settings() {
    let c = crawlds::clipboard::config::Config::default();
    assert_eq!(c.history_size, 100);
    assert!(!c.watch_primary);
    assert_eq!(c.poll_interval_ms, 50);
    assert!(c.event_driven);
    assert!(c.persistent);
    assert_eq!(c.max_entry_size, 5 * 1024 * 1024);
    assert!(c.data_dir.is_none());
}

#[test]
fn history_lists_newest_first_with_mime() {
    let mut h = ClipHistory::new(2);
    h.push("a".to_string(), "text/plain".to_string());
    h.push("b".to_string(), "text/plain".to_string());
    h.push("a".to_string(), "text/plain".to_string());
    h.push("c".to_string(), "text/plain".to_string());
    let list = h.list();
    let contents: Vec<&str> = list.iter().map(|e| e.content.as_str()).collect();
    assert_eq!(contents, vec!["c", "b"]);
    assert!(list.iter().all(|e| e.mime == "text/plain"));
    assert!(!h.contains_hash(compute_fnv_hash(b"a")));
    assert!(h.contains_hash(compute_fnv_hash(b"c")));
}

#[test]
fn listener_without_store_dedupes_by_hash() {
    let mut seen: HashSet<u64> = HashSet::new();
    let mut storage: Option<Storage> = None;
    assert!(accept_clip_change(&mut seen, &mut storage, String::new(), "text/plain".to_string(), 1).is_none());
    assert!(seen.is_empty());
    let e = accept_clip_change(&mut seen, &mut storage, "hi".to_string(), "text/plain".to_string(), 5).unwrap();
    assert_eq!(e.content, "hi");
    assert_eq!(e.mime, "text/plain");
    assert_eq!(e.timestamp_ms, 5);
    assert_eq!(seen.len(), 1);
    assert!(seen.contains(&0x08ba5f07b55ec3da));
    assert!(accept_clip_change(&mut seen, &mut storage, "hi".to_string(), "text/plain".to_string(), 6).is_none());
    assert_eq!(seen.len(), 1);
}

#[test]
fn listener_with_store_stores_and_skips_stored_hashes() {
    let mut seen: HashSet<u64> = HashSet::new();
    let mut storage = Some(temporary_store(10, 100));
    let e = accept_clip_change(&mut seen, &mut storage, "abc".to_string(), "text/plain".to_string(), 9).unwrap();
    assert_eq!(e.content, "abc");
    assert_eq!(e.timestamp_ms, 9);
    assert_eq!(storage.as_ref().unwrap().list().unwrap().len(), 1);
    let mut fresh_seen: HashSet<u64> = HashSet::new();
    assert!(accept_clip_change(&mut fresh_seen, &mut storage, "abc".to_string(), "text/plain".to_string(), 10).is_none());
    assert!(fresh_seen.is_empty());
    assert_eq!(storage.as_ref().unwrap().list().unwrap().len(), 1);
}
