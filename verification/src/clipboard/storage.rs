//! The persistent clipboard store: the record format, the decisions the
//! store makes over its records (which to admit, which duplicates and which
//! old records to remove), and the store itself over a sled database.
use vstd::prelude::*;
use vstd::utf8::encode_utf8;
use crate::bytes::{be_bytes, be_value, lemma_be_bytes_len, lemma_be_roundtrip, lemma_pow256_8, push_be, read_be};
use crate::clipboard::history::{is_image_mime, is_image_mime_type, make_preview, preview_cut_ok, preview_spec};
use crate::order::{key_before, rank_desc, ranked_desc};
use crate::text::{from_utf8_lossy, utf8_lossy};

verus! {

/// A stored clipboard record.
#[derive(Debug, Clone)]
pub struct Entry {
    pub id: u64,
    pub content: String,
    pub mime: String,
    pub preview: String,
    pub size: usize,
    pub timestamp_ms: u64,
    pub is_image: bool,
    pub hash: u64,
}

// ── Hashing ─────────────────────────────────────────────────────────────────

/// 64-bit FNV-1a: from the offset basis, each byte is XORed in, then the hash
/// is multiplied by the FNV prime (wrapping).
pub open spec fn fnv1a_from(h: u64, data: Seq<u8>) -> u64
    decreases data.len(),
{
    if data.len() == 0 {
        h
    } else {
        fnv1a_from((h ^ (data[0] as u64)).wrapping_mul(0x100000001b3), data.drop_first())
    }
}

pub open spec fn fnv1a(data: Seq<u8>) -> u64 {
    fnv1a_from(0xcbf29ce484222325, data)
}

/// The store's content hash, computed by `fnv::FnvHasher`: its default state
/// is the FNV offset basis and `write` applies FNV-1a to each byte, as the
/// crate's source shows; `finish` returns the state.
#[verifier::external_body]
pub(crate) fn compute_hash(data: &[u8]) -> (h: u64)
    ensures
        h == fnv1a(data@),
{
    let mut hasher = fnv::FnvHasher::default();
    std::hash::Hasher::write(&mut hasher, data);
    std::hash::Hasher::finish(&hasher)
}

// ── Record format ───────────────────────────────────────────────────────────

pub open spec fn text_bytes(s: String) -> Seq<u8> {
    encode_utf8(s@)
}

/// The bytes of a record: id, size (low 32 bits), content, a NUL byte, MIME
/// length and MIME, preview length and preview, timestamp, image flag, hash.
/// Integers are big-endian; lengths keep their low 32 bits.
pub open spec fn encode_spec(e: Entry) -> Seq<u8> {
    be_bytes(e.id as nat, 8) + be_bytes((e.size as nat) % 0x1_0000_0000, 4) + text_bytes(e.content)
        + seq![0u8] + be_bytes(text_bytes(e.mime).len() % 0x1_0000_0000, 4) + text_bytes(e.mime)
        + be_bytes(text_bytes(e.preview).len() % 0x1_0000_0000, 4) + text_bytes(e.preview)
        + be_bytes(e.timestamp_ms as nat, 8) + seq![
        if e.is_image {
            1u8
        } else {
            0u8
        },
    ] + be_bytes(e.hash as nat, 8)
}

fn push_bytes(out: &mut Vec<u8>, b: &[u8])
    ensures
        final(out)@ == old(out)@ + b@,
{
    let ghost o0 = out@;
    let mut i: usize = 0;
    while i < b.len()
        invariant
            0 <= i <= b.len(),
            out@ == o0 + b@.subrange(0, i as int),
        decreases b.len() - i,
    {
        out.push(b[i]);
        assert(out@ =~= o0 + b@.subrange(0, i + 1));
        i = i + 1;
    }
    assert(b@.subrange(0, b@.len() as int) =~= b@);
}

/// The bytes stored for a record.
pub fn encode_entry(e: &Entry) -> (buf: Vec<u8>)
    ensures
        buf@ == encode_spec(*e),
{
    let mut buf: Vec<u8> = Vec::new();
    push_be(&mut buf, e.id, 8);
    push_be(&mut buf, (e.size as u64) % 0x1_0000_0000, 4);
    push_bytes(&mut buf, e.content.as_str().as_bytes());
    buf.push(0);
    let mime = e.mime.as_str().as_bytes();
    push_be(&mut buf, (mime.len() as u64) % 0x1_0000_0000, 4);
    push_bytes(&mut buf, mime);
    let preview = e.preview.as_str().as_bytes();
    push_be(&mut buf, (preview.len() as u64) % 0x1_0000_0000, 4);
    push_bytes(&mut buf, preview);
    push_be(&mut buf, e.timestamp_ms, 8);
    buf.push(if e.is_image {
        1
    } else {
        0
    });
    push_be(&mut buf, e.hash, 8);
    proof {
        assert(buf@ =~= encode_spec(*e));
    }
    buf
}

/// Index of the first NUL byte, or the length when there is none.
pub open spec fn first_zero(d: Seq<u8>) -> int
    decreases d.len(),
{
    if d.len() == 0 {
        0
    } else if d[0] == 0 {
        0
    } else {
        1 + first_zero(d.drop_first())
    }
}

/// What a record decodes to.
pub struct DecodedFields {
    pub id: nat,
    pub content: Seq<char>,
    pub mime: Seq<char>,
    pub preview: Seq<char>,
    pub timestamp_ms: nat,
    pub is_image: bool,
    pub hash: nat,
}

/// Where the content of a record ends: the first NUL byte after the
/// 12-byte header (id and size), or the record's end when there is none.
pub open spec fn content_end(d: Seq<u8>) -> int {
    12 + first_zero(d.subrange(12, d.len() as int))
}

/// Text read from stored bytes: valid UTF-8 decoded as it is, anything else
/// as `String::from_utf8_lossy` makes it.
pub open spec fn lossy_text(b: Seq<u8>) -> Seq<char> {
    if vstd::utf8::valid_utf8(b) {
        vstd::utf8::decode_utf8(b)
    } else {
        utf8_lossy(b)
    }
}

/// Reading a record back. After the 12-byte header (id and size) the
/// content runs up to the next NUL byte, and the fields after that NUL are
/// read in order; any field cut short is an error.
pub open spec fn decode_spec(d: Seq<u8>) -> Option<DecodedFields> {
    if d.len() < 12 {
        None
    } else {
        let np = content_end(d);
        let a = d.subrange(np + 1, d.len() as int);
        if a.len() < 4 {
            None
        } else {
            let ml = be_value(a.subrange(0, 4)) as int;
            if a.len() - 4 < ml {
                None
            } else {
                let b = a.subrange(4 + ml, a.len() as int);
                if b.len() < 4 {
                    None
                } else {
                    let pl = be_value(b.subrange(0, 4)) as int;
                    if b.len() - 4 < pl {
                        None
                    } else {
                        let c = b.subrange(4 + pl, b.len() as int);
                        if c.len() < 17 {
                            None
                        } else {
                            Some(
                                DecodedFields {
                                    id: be_value(d.subrange(0, 8)),
                                    content: lossy_text(d.subrange(12, np)),
                                    mime: lossy_text(a.subrange(4, 4 + ml)),
                                    preview: lossy_text(b.subrange(4, 4 + pl)),
                                    timestamp_ms: be_value(c.subrange(0, 8)),
                                    is_image: c[8] == 1,
                                    hash: be_value(c.subrange(9, 17)),
                                },
                            )
                        }
                    }
                }
            }
        }
    }
}

/// A record that decoding cannot finish is cut short.
#[derive(Debug, Clone, Copy, PartialEq, Eq, Structural)]
pub enum DecodeError {
    Truncated,
}

pub open spec fn decoded_as(e: Entry, f: DecodedFields) -> bool {
    &&& e.id as nat == f.id
    &&& e.content@ == f.content
    &&& e.mime@ == f.mime
    &&& e.preview@ == f.preview
    &&& e.size == encode_utf8(f.content).len()
    &&& e.timestamp_ms as nat == f.timestamp_ms
    &&& e.is_image == f.is_image
    &&& e.hash as nat == f.hash
}

proof fn lemma_first_zero_unique(d: Seq<u8>, i: int)
    requires
        0 <= i <= d.len(),
        i < d.len() ==> d[i] == 0,
        forall|k: int| 0 <= k < i ==> #[trigger] d[k] != 0,
    ensures
        first_zero(d) == i,
    decreases d.len(),
{
    if d.len() > 0 && d[0] != 0 {
        assert forall|k: int| 0 <= k < i - 1 implies #[trigger] d.drop_first()[k] != 0 by {
            assert(d.drop_first()[k] == d[k + 1]);
        }
        lemma_first_zero_unique(d.drop_first(), i - 1);
    }
}

fn bytes_to_vec(d: &[u8], from: usize, to: usize) -> (v: Vec<u8>)
    requires
        from <= to <= d@.len(),
    ensures
        v@ == d@.subrange(from as int, to as int),
{
    let mut v: Vec<u8> = Vec::new();
    let mut i = from;
    while i < to
        invariant
            from <= i <= to <= d@.len(),
            v@ == d@.subrange(from as int, i as int),
        decreases to - i,
    {
        v.push(d[i]);
        assert(v@ =~= d@.subrange(from as int, i + 1));
        i = i + 1;
    }
    v
}

/// Read a stored record back (see `decode_spec`).
///
/// A record long enough for its header but without a NUL byte after it cannot be
/// taken apart (the content would run past the record's end), so such
/// records are left out.
#[verifier::rlimit(60)]
pub fn decode_entry(data: &[u8]) -> (r: Result<Entry, DecodeError>)
    requires
        decodable(data@),
    ensures
        match r {
            Ok(e) => decode_spec(data@) matches Some(f) && decoded_as(e, f),
            Err(_) => decode_spec(data@) is None,
        },
{
    let n = data.len();
    if n < 12 {
        return Err(DecodeError::Truncated);
    }
    let id = read_be(data, 0, 8);
    let np = content_end_at(data);
    let ghost d = data@;
    let ghost a = d.subrange(np + 1, d.len() as int);
    let p = np + 1;
    // `a` is `data[p..]`
    if n - p < 4 {
        return Err(DecodeError::Truncated);
    }
    let mlv = read_be(data, p, 4);
    proof {
        assert(d.subrange(p as int, p + 4) =~= a.subrange(0, 4));
        crate::bytes::lemma_be_value_bound(a.subrange(0, 4));
        lemma_pow256_8();
    }
    let ml = mlv as usize;
    if n - p - 4 < ml {
        return Err(DecodeError::Truncated);
    }
    let mime_start = p + 4;
    let q = mime_start + ml;
    let ghost b = a.subrange(4 + ml, a.len() as int);
    if n - q < 4 {
        proof {
            assert(b.len() == n - q);
        }
        return Err(DecodeError::Truncated);
    }
    let plv = read_be(data, q, 4);
    proof {
        assert(d.subrange(q as int, q + 4) =~= b.subrange(0, 4));
        crate::bytes::lemma_be_value_bound(b.subrange(0, 4));
        lemma_pow256_8();
    }
    let pl = plv as usize;
    if n - q - 4 < pl {
        return Err(DecodeError::Truncated);
    }
    let preview_start = q + 4;
    let r0 = preview_start + pl;
    let ghost c = b.subrange(4 + pl, b.len() as int);
    if n - r0 < 17 {
        proof {
            assert(c.len() == n - r0);
        }
        return Err(DecodeError::Truncated);
    }
    let ts = read_be(data, r0, 8);
    let img = data[r0 + 8] == 1;
    let hash = read_be(data, r0 + 9, 8);
    let content_bytes = bytes_to_vec(data, 12, np);
    let mime_bytes = bytes_to_vec(data, mime_start, q);
    let preview_bytes = bytes_to_vec(data, preview_start, r0);
    let content = from_utf8_lossy(content_bytes.as_slice());
    let mime = from_utf8_lossy(mime_bytes.as_slice());
    let preview = from_utf8_lossy(preview_bytes.as_slice());
    let size = content.as_str().as_bytes().len();
    proof {
        assert(d.subrange(mime_start as int, q as int) =~= a.subrange(4, 4 + ml));
        assert(d.subrange(preview_start as int, r0 as int) =~= b.subrange(4, 4 + pl));
        assert(d.subrange(r0 as int, r0 + 8) =~= c.subrange(0, 8));
        assert(d.subrange(r0 + 9, r0 + 17) =~= c.subrange(9, 17));
        assert(d[r0 + 8] == c[8]);
        let f = DecodedFields {
            id: be_value(d.subrange(0, 8)),
            content: lossy_text(d.subrange(12, np as int)),
            mime: lossy_text(a.subrange(4, 4 + ml)),
            preview: lossy_text(b.subrange(4, 4 + pl)),
            timestamp_ms: be_value(c.subrange(0, 8)),
            is_image: c[8] == 1,
            hash: be_value(c.subrange(9, 17)),
        };
        assert(decode_spec(d) == Some(f));
        assert(content_bytes@ == d.subrange(12, np as int));
        assert(id as nat == f.id);
        assert(content@ == f.content);
        assert(mime@ == f.mime);
        assert(preview@ == f.preview);
        assert(ts as nat == f.timestamp_ms);
        assert(img == f.is_image);
        assert(hash as nat == f.hash);
    }
    Ok(Entry { id, content, mime, preview, size, timestamp_ms: ts, is_image: img, hash })
}

/// A record that can be read back as it was stored: its content holds no
/// NUL byte, its size is the content's length in bytes, and its MIME and
/// preview fit their 32-bit length fields.
pub open spec fn readable_record(e: Entry) -> bool {
    &&& forall|i: int| 0 <= i < text_bytes(e.content).len() ==> #[trigger] text_bytes(e.content)[i] != 0
    &&& e.size as nat == text_bytes(e.content).len()
    &&& text_bytes(e.mime).len() < 0x1_0000_0000
    &&& text_bytes(e.preview).len() < 0x1_0000_0000
}

/// The fields of `e`, as decoding gives them.
pub open spec fn fields_of(e: Entry) -> DecodedFields {
    DecodedFields {
        id: e.id as nat,
        content: e.content@,
        mime: e.mime@,
        preview: e.preview@,
        timestamp_ms: e.timestamp_ms as nat,
        is_image: e.is_image,
        hash: e.hash as nat,
    }
}

proof fn lemma_text_reads_back(s: String)
    ensures
        lossy_text(text_bytes(s)) == s@,
{
    vstd::utf8::encode_utf8_valid_utf8(s@);
    vstd::utf8::encode_utf8_decode_utf8(s@);
}

/// The bytes of a record after the content's closing NUL.
pub open spec fn tail_bytes(e: Entry) -> Seq<u8> {
    be_bytes(text_bytes(e.mime).len() % 0x1_0000_0000, 4) + text_bytes(e.mime) + be_bytes(
        text_bytes(e.preview).len() % 0x1_0000_0000,
        4,
    ) + text_bytes(e.preview) + be_bytes(e.timestamp_ms as nat, 8) + seq![
        if e.is_image {
            1u8
        } else {
            0u8
        },
    ] + be_bytes(e.hash as nat, 8)
}

proof fn lemma_tail_reads_back(e: Entry)
    requires
        readable_record(e),
    ensures
        ({
            let a = tail_bytes(e);
            let ml = text_bytes(e.mime).len() as int;
            let pl = text_bytes(e.preview).len() as int;
            let b = a.subrange(4 + ml, a.len() as int);
            let c = b.subrange(4 + pl, b.len() as int);
            &&& a.len() >= 4
            &&& be_value(a.subrange(0, 4)) == ml
            &&& a.len() - 4 >= ml
            &&& a.subrange(4, 4 + ml) == text_bytes(e.mime)
            &&& b.len() >= 4
            &&& be_value(b.subrange(0, 4)) == pl
            &&& b.len() - 4 >= pl
            &&& b.subrange(4, 4 + pl) == text_bytes(e.preview)
            &&& c.len() == 17
            &&& be_value(c.subrange(0, 8)) == e.timestamp_ms as nat
            &&& (c[8] == 1) == e.is_image
            &&& be_value(c.subrange(9, 17)) == e.hash as nat
        }),
{
    let m = text_bytes(e.mime);
    let p = text_bytes(e.preview);
    let ml: int = m.len() as int;
    let pl: int = p.len() as int;
    let mlb = be_bytes((ml % 0x1_0000_0000) as nat, 4);
    let plb = be_bytes((pl % 0x1_0000_0000) as nat, 4);
    let tsb = be_bytes(e.timestamp_ms as nat, 8);
    let img = seq![if e.is_image { 1u8 } else { 0u8 }];
    let hb = be_bytes(e.hash as nat, 8);
    lemma_be_bytes_len((ml % 0x1_0000_0000) as nat, 4);
    lemma_be_bytes_len((pl % 0x1_0000_0000) as nat, 4);
    lemma_be_bytes_len(e.timestamp_ms as nat, 8);
    lemma_be_bytes_len(e.hash as nat, 8);
    lemma_pow256_8();
    let a = tail_bytes(e);
    assert(a =~= mlb + m + plb + p + tsb + img + hb);
    assert(a.subrange(0, 4) =~= mlb);
    assert(ml % 0x1_0000_0000 == ml);
    lemma_be_roundtrip(ml as nat, 4);
    assert(a.subrange(4, 4 + ml) =~= m);
    let b = a.subrange(4 + ml, a.len() as int);
    assert(b =~= plb + p + tsb + img + hb);
    assert(b.subrange(0, 4) =~= plb);
    assert(pl % 0x1_0000_0000 == pl);
    lemma_be_roundtrip(pl as nat, 4);
    assert(b.subrange(4, 4 + pl) =~= p);
    let c = b.subrange(4 + pl, b.len() as int);
    assert(c =~= tsb + img + hb);
    assert(c.subrange(0, 8) =~= tsb);
    assert(c.subrange(9, 17) =~= hb);
    lemma_be_roundtrip(e.timestamp_ms as nat, 8);
    lemma_be_roundtrip(e.hash as nat, 8);
    assert(c[8] == img[0]);
}

/// A record reads back as it was written: decoding the bytes stored for a
/// readable record gives its fields.
pub proof fn record_reads_back(e: Entry)
    requires
        readable_record(e),
    ensures
        decodable(encode_spec(e)),
        decode_spec(encode_spec(e)) == Some(fields_of(e)),
        decoded_as(e, fields_of(e)),
{
    let d = encode_spec(e);
    let c = text_bytes(e.content);
    let idb = be_bytes(e.id as nat, 8);
    let szb = be_bytes((e.size as nat) % 0x1_0000_0000, 4);
    let rest = tail_bytes(e);
    lemma_be_bytes_len(e.id as nat, 8);
    lemma_be_bytes_len((e.size as nat) % 0x1_0000_0000, 4);
    lemma_pow256_8();
    assert(d =~= idb + szb + c + seq![0u8] + rest);
    let t = d.subrange(12, d.len() as int);
    assert(t =~= c + seq![0u8] + rest);
    assert forall|k: int| 0 <= k < c.len() implies #[trigger] t[k] != 0 by {
        assert(t[k] == c[k]);
    }
    lemma_first_zero_unique(t, c.len() as int);
    let np = content_end(d);
    assert(np == 12 + c.len());
    assert(d.subrange(12, np) =~= c);
    lemma_text_reads_back(e.content);
    lemma_text_reads_back(e.mime);
    lemma_text_reads_back(e.preview);
    assert(d.subrange(np + 1, d.len() as int) =~= rest);
    lemma_tail_reads_back(e);
    assert(d.subrange(0, 8) =~= idb);
    lemma_be_roundtrip(e.id as nat, 8);
}

pub open spec fn hash_of_record(data: Seq<u8>) -> Option<u64> {
    if data.len() < 8 {
        None
    } else {
        Some(be_value(data.subrange(data.len() - 8, data.len() as int)) as u64)
    }
}

/// The hash stored in the last eight bytes of a record.
pub fn extract_hash(data: &[u8]) -> (r: Option<u64>)
    ensures
        r == hash_of_record(data@),
{
    if data.len() < 8 {
        return None;
    }
    let v = read_be(data, data.len() - 8, 8);
    Some(v)
}

/// The hash read back from a stored record is the record's hash.
pub proof fn stored_hash_reads_back(e: Entry)
    ensures
        hash_of_record(encode_spec(e)) == Some(e.hash),
{
    let d = encode_spec(e);
    let tail = be_bytes(e.hash as nat, 8);
    lemma_be_bytes_len(e.hash as nat, 8);
    lemma_be_bytes_len(e.id as nat, 8);
    assert(d.len() >= 8);
    assert(d.subrange(d.len() - 8, d.len() as int) =~= tail);
    lemma_pow256_8();
    lemma_be_roundtrip(e.hash as nat, 8);
}

// ── Store decisions ─────────────────────────────────────────────────────────

/// The record the store makes of a new content under a fresh id, or `None`
/// for empty content and content over the size limit.
pub fn build_entry(
    id: u64,
    content: String,
    mime: String,
    now_ms: u64,
    max_entry_size: usize,
) -> (r: Option<Entry>)
    requires
        preview_cut_ok(content@, mime@),
        encode_utf8(content@).len() < 0x20_0000_0000_0000,
    ensures
        ({
            let size = encode_utf8(content@).len();
            match r {
                None => size == 0 || size > max_entry_size,
                Some(e) => {
                    &&& size != 0 && size <= max_entry_size
                    &&& e.id == id
                    &&& e.content == content
                    &&& e.mime == mime
                    &&& e.preview@ == preview_spec(content@, mime@)
                    &&& e.size == size
                    &&& e.timestamp_ms == now_ms
                    &&& e.is_image == is_image_mime(mime@)
                    &&& e.hash == fnv1a(encode_utf8(content@))
                },
            }
        }),
{
    let size = content.as_str().as_bytes().len();
    if size == 0 || size > max_entry_size {
        return None;
    }
    let hash = compute_hash(content.as_str().as_bytes());
    let is_image = is_image_mime_type(mime.as_str());
    let preview = make_preview(content.as_str(), mime.as_str());
    Some(Entry { id, content, mime, preview, size, timestamp_ms: now_ms, is_image, hash })
}

/// Whether any stored record carries `hash`.
pub fn any_has_hash(records: &Vec<Vec<u8>>, hash: u64) -> (b: bool)
    ensures
        b == exists|i: int| 0 <= i < records@.len() && hash_of_record(#[trigger] records@[i]@) == Some(hash),
{
    let mut i: usize = 0;
    while i < records.len()
        invariant
            0 <= i <= records@.len(),
            forall|j: int| 0 <= j < i ==> hash_of_record(#[trigger] records@[j]@) != Some(hash),
        decreases records.len() - i,
    {
        if extract_hash(records[i].as_slice()) == Some(hash) {
            return true;
        }
        i = i + 1;
    }
    false
}

/// How many ids are larger than `x`.
pub open spec fn larger_count(ids: Seq<u64>, x: u64) -> nat {
    ids.filter(|y: u64| y > x).len()
}

/// Indices of the records beyond the `max_history` newest ones (largest ids).
pub fn trim_targets(ids: &Vec<u64>, max_history: usize) -> (out: Vec<usize>)
    ensures
        forall|k: int| 0 <= k < out@.len() ==> (#[trigger] out@[k]) < ids@.len(),
        forall|i: int|
            0 <= i < ids@.len() ==> (larger_count(ids@, #[trigger] ids@[i]) >= max_history
                <==> out@.contains(i as usize)),
{
    let mut out: Vec<usize> = Vec::new();
    let mut i: usize = 0;
    while i < ids.len()
        invariant
            0 <= i <= ids@.len(),
            forall|k: int| 0 <= k < out@.len() ==> (#[trigger] out@[k]) < i,
            forall|j: int|
                0 <= j < i ==> (larger_count(ids@, #[trigger] ids@[j]) >= max_history
                    <==> out@.contains(j as usize)),
        decreases ids.len() - i,
    {
        let x = ids[i];
        let mut count: usize = 0;
        let mut j: usize = 0;
        while j < ids.len()
            invariant
                0 <= j <= ids@.len(),
                count == ids@.subrange(0, j as int).filter(|y: u64| y > x).len(),
                count <= j,
            decreases ids.len() - j,
        {
            proof {
                assert(ids@.subrange(0, j + 1).drop_last() =~= ids@.subrange(0, j as int));
                reveal_with_fuel(Seq::filter, 1);
            }
            if ids[j] > x {
                count = count + 1;
            }
            j = j + 1;
        }
        proof {
            assert(ids@.subrange(0, ids@.len() as int) =~= ids@);
        }
        let ghost o0 = out@;
        if count >= max_history {
            out.push(i);
            proof {
                assert(out@[o0.len() as int] == i);
                assert forall|j: int| 0 <= j < i implies (larger_count(ids@, #[trigger] ids@[j])
                    >= max_history <==> out@.contains(j as usize)) by {
                    if o0.contains(j as usize) {
                        let k = choose|k: int| 0 <= k < o0.len() && o0[k] == j as usize;
                        assert(out@[k] == j as usize);
                    }
                    if out@.contains(j as usize) {
                        let k = choose|k: int| 0 <= k < out@.len() && out@[k] == j as usize;
                        if k < o0.len() {
                            assert(o0[k] == j as usize);
                        }
                    }
                }
            }
        } else {
            proof {
                assert(!out@.contains(i as usize));
            }
        }
        i = i + 1;
    }
    out
}


// ── The database ────────────────────────────────────────────────────────────

#[verifier::external_type_specification]
#[verifier::external_body]
pub struct ExDb(sled::Db);

#[verifier::external_type_specification]
#[verifier::external_body]
pub struct ExSledError(sled::Error);

/// What a sled database holds: the value stored under each key.
pub uninterp spec fn db_contents(db: sled::Db) -> Map<Seq<u8>, Seq<u8>>;

/// `a` sorts before `b` byte by byte, a proper prefix first: the order in
/// which sled keeps its keys.
pub open spec fn bytes_lt(a: Seq<u8>, b: Seq<u8>) -> bool
    decreases a.len(),
{
    if a.len() == 0 {
        b.len() > 0
    } else if b.len() == 0 {
        false
    } else if a[0] != b[0] {
        a[0] < b[0]
    } else {
        bytes_lt(a.drop_first(), b.drop_first())
    }
}

/// `sled::Tree::get`: the value stored under `key`, if there is one.
#[verifier::external_body]
fn db_get(db: &sled::Db, key: &[u8]) -> (r: Result<Option<Vec<u8>>, sled::Error>)
    ensures
        match r {
            Ok(Some(v)) => db_contents(*db).contains_key(key@) && db_contents(*db)[key@] == v@,
            Ok(None) => !db_contents(*db).contains_key(key@),
            Err(_) => true,
        },
{
    match db.get(key) {
        Ok(Some(v)) => Ok(Some(v.to_vec())),
        Ok(None) => Ok(None),
        Err(e) => Err(e),
    }
}

/// `sled::Tree::insert`: when it succeeds, `value` is stored under `key`
/// and the value it replaced, if any, is returned; the id counter, kept
/// apart from the records, does not move. Nothing is stated of the
/// database after an error.
#[verifier::external_body]
fn db_insert(db: &mut sled::Db, key: &[u8], value: Vec<u8>) -> (r: Result<Option<Vec<u8>>, sled::Error>)
    ensures
        r is Ok ==> db_contents(*final(db)) == db_contents(*old(db)).insert(key@, value@),
        r is Ok ==> db_id_floor(*final(db)) == db_id_floor(*old(db)),
        match r {
            Ok(Some(v)) => db_contents(*old(db)).contains_key(key@) && db_contents(*old(db))[key@] == v@,
            Ok(None) => !db_contents(*old(db)).contains_key(key@),
            Err(_) => true,
        },
{
    match db.insert(key, value) {
        Ok(Some(v)) => Ok(Some(v.to_vec())),
        Ok(None) => Ok(None),
        Err(e) => Err(e),
    }
}

/// `sled::Tree::remove`: when it succeeds, nothing is stored under `key`
/// any more and the value removed, if any, is returned; the id counter does
/// not move. Nothing is stated of the database after an error.
#[verifier::external_body]
fn db_remove(db: &mut sled::Db, key: &[u8]) -> (r: Result<Option<Vec<u8>>, sled::Error>)
    ensures
        r is Ok ==> db_contents(*final(db)) == db_contents(*old(db)).remove(key@),
        r is Ok ==> db_id_floor(*final(db)) == db_id_floor(*old(db)),
        match r {
            Ok(Some(v)) => db_contents(*old(db)).contains_key(key@) && db_contents(*old(db))[key@] == v@,
            Ok(None) => !db_contents(*old(db)).contains_key(key@),
            Err(_) => true,
        },
{
    match db.remove(key) {
        Ok(Some(v)) => Ok(Some(v.to_vec())),
        Ok(None) => Ok(None),
        Err(e) => Err(e),
    }
}

/// The key of an item of an iteration (empty for an error).
pub open spec fn item_key(item: Result<(Vec<u8>, Vec<u8>), sled::Error>) -> Seq<u8> {
    match item {
        Ok(p) => p.0@,
        Err(_) => Seq::empty(),
    }
}

/// The value of an item of an iteration (empty for an error).
pub open spec fn item_value(item: Result<(Vec<u8>, Vec<u8>), sled::Error>) -> Seq<u8> {
    match item {
        Ok(p) => p.1@,
        Err(_) => Seq::empty(),
    }
}

/// `sled::Tree::iter`, run to its end: the stored pairs in ascending key
/// order, each as read or the error met reading it. When no item is an
/// error, every stored key occurs. Which pairs an error hides is not stated.
#[verifier::external_body]
fn db_iter(db: &sled::Db) -> (items: Vec<Result<(Vec<u8>, Vec<u8>), sled::Error>>)
    ensures
        forall|i: int|
            0 <= i < items@.len() && #[trigger] items@[i] is Ok ==> db_contents(*db).contains_key(
                item_key(items@[i]),
            ) && db_contents(*db)[item_key(items@[i])] == item_value(items@[i]),
        forall|i: int, j: int|
            0 <= i < j < items@.len() && #[trigger] items@[i] is Ok && #[trigger] items@[j] is Ok
                ==> bytes_lt(item_key(items@[i]), item_key(items@[j])),
        (forall|i: int| 0 <= i < items@.len() ==> #[trigger] items@[i] is Ok) ==> forall|k: Seq<u8>|
            #[trigger] db_contents(*db).contains_key(k) ==> exists|i: int|
                0 <= i < items@.len() && #[trigger] items@[i] is Ok && item_key(items@[i]) == k,
{
    let mut out = Vec::new();
    for item in db.iter() {
        out.push(match item {
            Ok((k, v)) => Ok((k.to_vec(), v.to_vec())),
            Err(e) => Err(e),
        });
    }
    out
}

/// The least id that `sled::Db::generate_id` may still hand out: sled
/// documents its ids as monotonic and never handed out twice.
pub uninterp spec fn db_id_floor(db: sled::Db) -> nat;

/// `sled::Db::generate_id`: a generated id is at least the floor, and the
/// floor afterwards lies above it (the counter is monotonic and never gives
/// an id twice). The stored records are not touched. Nothing is stated
/// after an error.
#[verifier::external_body]
fn db_generate_id(db: &mut sled::Db) -> (r: Result<u64, sled::Error>)
    ensures
        r matches Ok(id) ==> id >= db_id_floor(*old(db)) && db_id_floor(*final(db)) > id
            && db_contents(*final(db)) == db_contents(*old(db)),
{
    db.generate_id()
}

/// `sled::Tree::clear`: when it succeeds, the database holds nothing; the
/// id counter does not move. Nothing is stated of the database after an
/// error.
#[verifier::external_body]
fn db_clear(db: &mut sled::Db) -> (r: Result<(), sled::Error>)
    ensures
        r is Ok ==> db_contents(*final(db)).dom() == Set::<Seq<u8>>::empty(),
        r is Ok ==> db_id_floor(*final(db)) == db_id_floor(*old(db)),
{
    db.clear()
}

// ── The store ───────────────────────────────────────────────────────────────

/// Why a store operation failed.
#[derive(Debug)]
pub enum StorageError {
    /// The database reported an error.
    Database(sled::Error),
    /// A stored record could not be decoded.
    Decode(DecodeError),
}

/// A record that decoding can take apart without running past its end: short
/// enough to be refused at once, or holding a NUL byte after its header.
pub open spec fn decodable(v: Seq<u8>) -> bool {
    v.len() < 12 || content_end(v) < v.len()
}

/// Every record of the database is `decodable`.
pub open spec fn all_decodable(m: Map<Seq<u8>, Seq<u8>>) -> bool {
    forall|k: Seq<u8>| #[trigger] m.contains_key(k) ==> decodable(m[k])
}

/// `pairs` were read from `m`: each is stored there, in ascending key order.
pub open spec fn read_from(m: Map<Seq<u8>, Seq<u8>>, pairs: Seq<(Seq<u8>, Seq<u8>)>) -> bool {
    &&& forall|i: int|
        0 <= i < pairs.len() ==> m.contains_key(#[trigger] pairs[i].0) && m[pairs[i].0] == pairs[i].1
    &&& forall|i: int, j: int| 0 <= i < j < pairs.len() ==> bytes_lt(#[trigger] pairs[i].0, #[trigger] pairs[j].0)
}

pub open spec fn pairs_view(v: Seq<(Vec<u8>, Vec<u8>)>) -> Seq<(Seq<u8>, Seq<u8>)> {
    v.map_values(|p: (Vec<u8>, Vec<u8>)| (p.0@, p.1@))
}

/// The persistent clipboard history: records keyed by their big-endian id in
/// a sled database.
pub struct Storage {
    db: sled::Db,
    max_history: usize,
    max_entry_size: usize,
}

impl Storage {
    /// What the database holds.
    pub closed spec fn contents(&self) -> Map<Seq<u8>, Seq<u8>> {
        db_contents(self.db)
    }

    pub closed spec fn history_limit(&self) -> usize {
        self.max_history
    }

    pub closed spec fn size_limit(&self) -> usize {
        self.max_entry_size
    }

    /// The least id the database may still generate.
    pub closed spec fn id_floor(&self) -> nat {
        db_id_floor(self.db)
    }

    /// Every stored id lies below the ids still to be generated: so it is
    /// for a store over an empty database, and every operation keeps it.
    pub open spec fn fresh_ids(&self) -> bool {
        ids_below(self.contents(), self.id_floor())
    }

    /// A store over an opened database, keeping at most `max_history`
    /// records of at most `max_entry_size` bytes. The store must hold the
    /// only handle to the database: its contracts speak of what the database
    /// holds, and a clone of the handle used elsewhere could change that
    /// unseen.
    pub fn from_db(db: sled::Db, max_history: usize, max_entry_size: usize) -> (s: Storage)
        ensures
            s.contents() == db_contents(db),
            s.id_floor() == db_id_floor(db),
            db_contents(db).dom() == Set::<Seq<u8>>::empty() ==> s.fresh_ids(),
            s.history_limit() == max_history,
            s.size_limit() == max_entry_size,
    {
        Storage { db, max_history, max_entry_size }
    }

    /// The pairs that could be read, in ascending key order, and the first
    /// error met reading them, if any: with none, every pair was read.
    fn read_all(&self) -> (r: (Vec<(Vec<u8>, Vec<u8>)>, Option<sled::Error>))
        ensures
            read_from(self.contents(), pairs_view(r.0@)),
            r.1 is None ==> forall|k: Seq<u8>|
                #[trigger] self.contents().contains_key(k) ==> exists|i: int|
                    0 <= i < r.0@.len() && #[trigger] pairs_view(r.0@)[i] == (k, self.contents()[k]),
    {
        let mut items = db_iter(&self.db);
        let ghost m = self.contents();
        let mut out: Vec<(Vec<u8>, Vec<u8>)> = Vec::new();
        let ghost mut at: Seq<int> = Seq::empty();
        let mut complete = true;
        let mut err_at: usize = 0;
        let mut i: usize = 0;
        while i < items.len()
            invariant
                0 <= i <= items@.len(),
                m == db_contents(self.db),
                at.len() == out@.len(),
                forall|j: int| 0 <= j < at.len() ==> 0 <= #[trigger] at[j] < i,
                forall|j: int, l: int| 0 <= j < l < at.len() ==> #[trigger] at[j] < #[trigger] at[l],
                forall|j: int|
                    0 <= j < at.len() ==> items@[#[trigger] at[j]] is Ok && pairs_view(out@)[j] == (
                    item_key(items@[at[j]]),
                    item_value(items@[at[j]]),
                ),
                forall|l: int|
                    0 <= l < i && #[trigger] items@[l] is Ok ==> exists|j: int|
                        0 <= j < at.len() && at[j] == l,
                complete ==> forall|l: int| 0 <= l < i ==> #[trigger] items@[l] is Ok,
                !complete ==> err_at < i && items@[err_at as int] is Err,
                forall|i2: int|
                    0 <= i2 < items@.len() && #[trigger] items@[i2] is Ok ==> m.contains_key(
                        item_key(items@[i2]),
                    ) && m[item_key(items@[i2])] == item_value(items@[i2]),
                forall|i2: int, j2: int|
                    0 <= i2 < j2 < items@.len() && #[trigger] items@[i2] is Ok
                        && #[trigger] items@[j2] is Ok ==> bytes_lt(
                        item_key(items@[i2]),
                        item_key(items@[j2]),
                    ),
            decreases items@.len() - i,
        {
            match &items[i] {
                Ok(p) => {
                    let pair = (clone_bytes(&p.0), clone_bytes(&p.1));
                    let ghost o0 = out@;
                    let ghost at0 = at;
                    out.push(pair);
                    proof {
                        at = at.push(i as int);
                        assert(pairs_view(out@) =~= pairs_view(o0).push((p.0@, p.1@)));
                        assert forall|j: int| 0 <= j < at.len() implies items@[#[trigger] at[j]] is Ok
                            && pairs_view(out@)[j] == (
                            item_key(items@[at[j]]),
                            item_value(items@[at[j]]),
                        ) by {
                            if j < at.len() - 1 {
                                assert(pairs_view(out@)[j] == pairs_view(o0)[j]);
                            }
                        }
                        assert forall|l: int|
                            0 <= l < i + 1 && #[trigger] items@[l] is Ok implies exists|j: int|
                            0 <= j < at.len() && at[j] == l by {
                            if l == i {
                                assert(at[at.len() - 1] == l);
                            } else {
                                assert(exists|j: int| 0 <= j < at0.len() && at0[j] == l);
                                let j = choose|j: int| 0 <= j < at0.len() && at0[j] == l;
                                assert(at[j] == l);
                            }
                        }
                    }
                },
                Err(_) => {
                    if complete {
                        err_at = i;
                    }
                    complete = false;
                },
            }
            i = i + 1;
        }
        proof {
            let pv = pairs_view(out@);
            assert forall|j: int| 0 <= j < pv.len() implies m.contains_key(#[trigger] pv[j].0)
                && m[pv[j].0] == pv[j].1 by {
                assert(items@[at[j]] is Ok);
            }
            assert forall|j: int, l: int| 0 <= j < l < pv.len() implies bytes_lt(
                #[trigger] pv[j].0,
                #[trigger] pv[l].0,
            ) by {
                assert(items@[at[j]] is Ok);
                assert(items@[at[l]] is Ok);
                assert(at[j] < at[l]);
            }
            assert(m == self.contents());
            if complete {
                assert(forall|l: int| 0 <= l < items@.len() ==> #[trigger] items@[l] is Ok);
                assert forall|k: Seq<u8>| #[trigger] self.contents().contains_key(k) implies exists|j: int|
                    0 <= j < out@.len() && #[trigger] pairs_view(out@)[j] == (k, self.contents()[k]) by {
                    let l = choose|l: int|
                        0 <= l < items@.len() && #[trigger] items@[l] is Ok && item_key(items@[l]) == k;
                    let j = choose|j: int| 0 <= j < at.len() && at[j] == l;
                    assert(pairs_view(out@)[j] == (k, m[k]));
                }
            }
        }
        let ghost ov = out@;
        let err = if complete {
            None
        } else {
            match items.remove(err_at) {
                Err(e) => Some(e),
                Ok(_) => None,
            }
        };
        let r = (out, err);
        assert(pairs_view(r.0@) == pairs_view(ov));
        r
    }
}

fn clone_bytes(v: &Vec<u8>) -> (c: Vec<u8>)
    ensures
        c@ == v@,
{
    let mut c: Vec<u8> = Vec::new();
    let mut i: usize = 0;
    while i < v.len()
        invariant
            0 <= i <= v@.len(),
            c@ == v@.subrange(0, i as int),
        decreases v@.len() - i,
    {
        c.push(v[i]);
        assert(c@ =~= v@.subrange(0, i + 1));
        i = i + 1;
    }
    assert(v@.subrange(0, v@.len() as int) =~= v@);
    c
}


/// The key a record is stored under: its id, big-endian.
pub open spec fn id_key(id: u64) -> Seq<u8> {
    be_bytes(id as nat, 8)
}

fn key_of(id: u64) -> (k: Vec<u8>)
    ensures
        k@ == id_key(id),
{
    let mut k: Vec<u8> = Vec::new();
    push_be(&mut k, id, 8);
    assert(Seq::<u8>::empty() + be_bytes(id as nat, 8) =~= be_bytes(id as nat, 8));
    k
}

/// `ps` lists the whole of `m`: each pair is stored there, keys ascending,
/// and every key of `m` occurs.
pub open spec fn listing(m: Map<Seq<u8>, Seq<u8>>, ps: Seq<(Seq<u8>, Seq<u8>)>) -> bool {
    &&& read_from(m, ps)
    &&& forall|k: Seq<u8>|
        #[trigger] m.contains_key(k) ==> exists|i: int| 0 <= i < ps.len() && #[trigger] ps[i] == (k, m[k])
}

/// `m` without the records that carry the hash `h`.
pub open spec fn without_hash(m: Map<Seq<u8>, Seq<u8>>, h: u64) -> Map<Seq<u8>, Seq<u8>> {
    Map::new(|k: Seq<u8>| m.contains_key(k) && hash_of_record(m[k]) != Some(h), |k: Seq<u8>| m[k])
}

/// The ids of the id-keyed (8-byte) pairs of `ps`, in order.
pub open spec fn key_ids(ps: Seq<(Seq<u8>, Seq<u8>)>) -> Seq<u64>
    decreases ps.len(),
{
    if ps.len() == 0 {
        Seq::empty()
    } else {
        let rest = key_ids(ps.drop_last());
        if ps.last().0.len() == 8 {
            rest.push(be_value(ps.last().0) as u64)
        } else {
            rest
        }
    }
}

/// `k` keys a record beyond the `limit` newest of `ps`: it is an id key and
/// at least `limit` ids listed are larger.
pub open spec fn beyond_limit(ps: Seq<(Seq<u8>, Seq<u8>)>, k: Seq<u8>, limit: usize) -> bool {
    k.len() == 8 && larger_count(key_ids(ps), be_value(k) as u64) >= limit
}

/// `m`, listed as `ps`, cut to its `limit` newest id-keyed records.
pub open spec fn trimmed(m: Map<Seq<u8>, Seq<u8>>, ps: Seq<(Seq<u8>, Seq<u8>)>, limit: usize) -> Map<
    Seq<u8>,
    Seq<u8>,
> {
    Map::new(|k: Seq<u8>| m.contains_key(k) && !beyond_limit(ps, k, limit), |k: Seq<u8>| m[k])
}

/// `m` after `e` was stored in it: the records with `e`'s hash removed and
/// `e` written under its id.
pub open spec fn stored_with(m: Map<Seq<u8>, Seq<u8>>, e: Entry) -> Map<Seq<u8>, Seq<u8>> {
    without_hash(m, e.hash).insert(id_key(e.id), encode_spec(e))
}

/// What the store holds after `e` was stored in `m` and the history cut to
/// `limit` records.
pub open spec fn stored_and_trimmed(m: Map<Seq<u8>, Seq<u8>>, e: Entry, limit: usize, after: Map<
    Seq<u8>,
    Seq<u8>,
>) -> bool {
    exists|ps: Seq<(Seq<u8>, Seq<u8>)>|
        #[trigger] listing(stored_with(m, e), ps) && after == trimmed(stored_with(m, e), ps, limit)
}

proof fn lemma_none_larger(ids: Seq<u64>, x: u64)
    requires
        forall|j: int| 0 <= j < ids.len() ==> #[trigger] ids[j] <= x,
    ensures
        larger_count(ids, x) == 0,
    decreases ids.len(),
{
    reveal_with_fuel(Seq::filter, 1);
    if ids.len() > 0 {
        lemma_none_larger(ids.drop_last(), x);
        assert(ids.drop_last().filter(|y: u64| y > x).len() == 0);
    }
}

proof fn lemma_key_ids_bounded(ps: Seq<(Seq<u8>, Seq<u8>)>, x: u64)
    requires
        forall|i: int| 0 <= i < ps.len() && (#[trigger] ps[i]).0.len() == 8 ==> be_value(ps[i].0) <= x,
    ensures
        forall|j: int| 0 <= j < key_ids(ps).len() ==> #[trigger] key_ids(ps)[j] <= x,
    decreases ps.len(),
{
    if ps.len() > 0 {
        let q = ps.drop_last();
        assert forall|i: int| 0 <= i < q.len() && (#[trigger] q[i]).0.len() == 8 implies be_value(q[i].0) <= x by {
            assert(q[i] == ps[i]);
        }
        lemma_key_ids_bounded(q, x);
        assert(ps.last() == ps[ps.len() - 1]);
        if ps.last().0.len() == 8 {
            crate::bytes::lemma_be_value_bound(ps.last().0);
            lemma_pow256_8();
            let v = be_value(ps.last().0) as u64;
            assert(v <= x);
            assert forall|j: int| 0 <= j < key_ids(ps).len() implies #[trigger] key_ids(ps)[j] <= x by {
                if j < key_ids(q).len() {
                    assert(key_ids(ps)[j] == key_ids(q)[j]);
                }
            }
        }
    }
}

/// After `e` was stored, no record but `e`'s own carries its hash: older
/// records with the same content were removed.
pub proof fn store_leaves_one_record_per_hash(
    m: Map<Seq<u8>, Seq<u8>>,
    e: Entry,
    limit: usize,
    after: Map<Seq<u8>, Seq<u8>>,
)
    requires
        stored_and_trimmed(m, e, limit, after),
    ensures
        forall|k: Seq<u8>|
            #[trigger] after.contains_key(k) && hash_of_record(after[k]) == Some(e.hash) ==> k == id_key(e.id),
{
    let ps = choose|ps: Seq<(Seq<u8>, Seq<u8>)>|
        #[trigger] listing(stored_with(m, e), ps) && after == trimmed(stored_with(m, e), ps, limit);
    assert forall|k: Seq<u8>|
        #[trigger] after.contains_key(k) && hash_of_record(after[k]) == Some(e.hash) implies k == id_key(e.id) by {
        if k != id_key(e.id) {
            assert(stored_with(m, e)[k] == without_hash(m, e.hash)[k]);
        }
    }
}

/// Every id-keyed record of `m` has an id below `x`.
pub open spec fn ids_below(m: Map<Seq<u8>, Seq<u8>>, x: nat) -> bool {
    forall|k: Seq<u8>| #[trigger] m.contains_key(k) && k.len() == 8 ==> be_value(k) < x
}

/// A new record survives its store: when at least one record is kept and
/// every id stored before is below `e`'s, the record under `e`'s id
/// afterwards is `e`'s bytes, and it is the only record with `e`'s hash.
pub proof fn stored_record_is_kept(
    m: Map<Seq<u8>, Seq<u8>>,
    e: Entry,
    limit: usize,
    after: Map<Seq<u8>, Seq<u8>>,
)
    requires
        stored_and_trimmed(m, e, limit, after),
        limit >= 1,
        ids_below(m, e.id as nat),
    ensures
        after.contains_key(id_key(e.id)),
        after[id_key(e.id)] == encode_spec(e),
        forall|k: Seq<u8>|
            #[trigger] after.contains_key(k) ==> (hash_of_record(after[k]) == Some(e.hash) <==> k == id_key(
                e.id,
            )),
{
    let sw = stored_with(m, e);
    let ps = choose|ps: Seq<(Seq<u8>, Seq<u8>)>|
        #[trigger] listing(sw, ps) && after == trimmed(sw, ps, limit);
    lemma_be_bytes_len(e.id as nat, 8);
    lemma_pow256_8();
    lemma_be_roundtrip(e.id as nat, 8);
    assert forall|i: int| 0 <= i < ps.len() && (#[trigger] ps[i]).0.len() == 8 implies be_value(ps[i].0)
        <= e.id by {
        let k = ps[i].0;
        assert(sw.contains_key(k));
        if k != id_key(e.id) {
            assert(m.contains_key(k));
        }
    }
    lemma_key_ids_bounded(ps, e.id);
    lemma_none_larger(key_ids(ps), e.id);
    assert(!beyond_limit(ps, id_key(e.id), limit));
    assert(after.contains_key(id_key(e.id)));
    store_leaves_one_record_per_hash(m, e, limit, after);
    stored_hash_reads_back(e);
}

/// What is stored reads back by its id: when `e` is readable, at least one
/// record is kept and every id stored before is below `e`'s, the record under
/// `e`'s id afterwards decodes to `e`'s fields.
pub proof fn stored_entry_reads_back(
    m: Map<Seq<u8>, Seq<u8>>,
    e: Entry,
    limit: usize,
    after: Map<Seq<u8>, Seq<u8>>,
)
    requires
        stored_and_trimmed(m, e, limit, after),
        readable_record(e),
        limit >= 1,
        ids_below(m, e.id as nat),
    ensures
        after.contains_key(id_key(e.id)),
        after[id_key(e.id)] == encode_spec(e),
        decodable(after[id_key(e.id)]),
        decode_spec(after[id_key(e.id)]) == Some(fields_of(e)),
        forall|g: Entry| #[trigger] stored_as(after, id_key(e.id), g) ==> decoded_as(g, fields_of(e)),
{
    stored_record_is_kept(m, e, limit, after);
    record_reads_back(e);
}

proof fn lemma_bytes_lt_irreflexive(a: Seq<u8>)
    ensures
        !bytes_lt(a, a),
    decreases a.len(),
{
    if a.len() > 0 {
        lemma_bytes_lt_irreflexive(a.drop_first());
    }
}

proof fn lemma_be_bytes_of_value(s: Seq<u8>)
    ensures
        be_bytes(be_value(s), s.len()) == s,
    decreases s.len(),
{
    if s.len() > 0 {
        let v = be_value(s.drop_last());
        let b = s.last() as nat;
        assert((v * 256 + b) / 256 == v && (v * 256 + b) % 256 == b) by (nonlinear_arith)
            requires
                b < 256,
        ;
        lemma_be_bytes_of_value(s.drop_last());
        assert(s.drop_last().push(s.last()) =~= s);
    }
}

/// Id keys with the same value are the same key.
proof fn lemma_id_keys_injective(a: Seq<u8>, b: Seq<u8>)
    requires
        a.len() == 8,
        b.len() == 8,
        be_value(a) as u64 == be_value(b) as u64,
    ensures
        a == b,
{
    crate::bytes::lemma_be_value_bound(a);
    crate::bytes::lemma_be_value_bound(b);
    lemma_pow256_8();
    lemma_be_bytes_of_value(a);
    lemma_be_bytes_of_value(b);
}

proof fn lemma_key_ids_from(ps: Seq<(Seq<u8>, Seq<u8>)>)
    ensures
        forall|j: int|
            0 <= j < key_ids(ps).len() ==> exists|l: int|
                0 <= l < ps.len() && ps[l].0.len() == 8 && #[trigger] key_ids(ps)[j] == be_value(ps[l].0) as u64,
    decreases ps.len(),
{
    if ps.len() > 0 {
        let q = ps.drop_last();
        lemma_key_ids_from(q);
        assert forall|j: int| 0 <= j < key_ids(ps).len() implies exists|l: int|
            0 <= l < ps.len() && ps[l].0.len() == 8 && #[trigger] key_ids(ps)[j] == be_value(ps[l].0) as u64 by {
            if j < key_ids(q).len() {
                assert(key_ids(ps)[j] == key_ids(q)[j]);
                let l = choose|l: int|
                    0 <= l < q.len() && q[l].0.len() == 8 && #[trigger] key_ids(q)[j] == be_value(q[l].0) as u64;
                assert(ps[l] == q[l]);
            } else {
                assert(ps[ps.len() - 1] == ps.last());
            }
        }
    }
}

proof fn lemma_key_ids_has(ps: Seq<(Seq<u8>, Seq<u8>)>, l: int)
    requires
        0 <= l < ps.len(),
        ps[l].0.len() == 8,
    ensures
        key_ids(ps).contains(be_value(ps[l].0) as u64),
    decreases ps.len(),
{
    let q = ps.drop_last();
    if l < ps.len() - 1 {
        assert(q[l] == ps[l]);
        lemma_key_ids_has(q, l);
        let j = choose|j: int| 0 <= j < key_ids(q).len() && key_ids(q)[j] == be_value(ps[l].0) as u64;
        assert(key_ids(ps)[j] == key_ids(q)[j]);
    } else {
        assert(ps.last() == ps[l]);
        assert(key_ids(ps)[key_ids(ps).len() - 1] == be_value(ps[l].0) as u64);
    }
}

proof fn lemma_key_ids_distinct(ps: Seq<(Seq<u8>, Seq<u8>)>)
    requires
        forall|i: int, j: int| 0 <= i < j < ps.len() ==> bytes_lt(#[trigger] ps[i].0, #[trigger] ps[j].0),
    ensures
        key_ids(ps).no_duplicates(),
    decreases ps.len(),
{
    if ps.len() > 0 {
        let q = ps.drop_last();
        assert forall|i: int, j: int| 0 <= i < j < q.len() implies bytes_lt(#[trigger] q[i].0, #[trigger] q[j].0) by {
            assert(q[i] == ps[i]);
            assert(q[j] == ps[j]);
        }
        lemma_key_ids_distinct(q);
        lemma_key_ids_from(q);
        let last = ps.last();
        assert(last == ps[ps.len() - 1]);
        if last.0.len() == 8 {
            let v = be_value(last.0) as u64;
            let r = key_ids(q);
            assert(!r.contains(v)) by {
                if r.contains(v) {
                    let j = choose|j: int| 0 <= j < r.len() && r[j] == v;
                    let l = choose|l: int|
                        0 <= l < q.len() && q[l].0.len() == 8 && #[trigger] key_ids(q)[j] == be_value(q[l].0) as u64;
                    assert(q[l] == ps[l]);
                    lemma_id_keys_injective(ps[l].0, last.0);
                    assert(bytes_lt(ps[l].0, ps[ps.len() - 1].0));
                    lemma_bytes_lt_irreflexive(last.0);
                }
            }
            assert forall|a: int, b: int| 0 <= a < b < key_ids(ps).len() implies key_ids(ps)[a] != key_ids(ps)[b] by {
                if b < r.len() {
                    assert(key_ids(ps)[a] == r[a]);
                    assert(key_ids(ps)[b] == r[b]);
                } else {
                    assert(key_ids(ps)[a] == r[a]);
                    assert(r.contains(r[a]));
                }
            }
        }
    }
}

proof fn lemma_filter_distinct(s: Seq<u64>, p: spec_fn(u64) -> bool)
    requires
        s.no_duplicates(),
    ensures
        s.filter(p).no_duplicates(),
    decreases s.len(),
{
    reveal_with_fuel(Seq::filter, 1);
    if s.len() > 0 {
        let q = s.drop_last();
        assert forall|a: int, b: int| 0 <= a < b < q.len() implies q[a] != q[b] by {
            assert(q[a] == s[a]);
            assert(q[b] == s[b]);
        }
        lemma_filter_distinct(q, p);
        if p(s.last()) {
            let f = q.filter(p);
            assert(!f.contains(s.last())) by {
                if f.contains(s.last()) {
                    q.lemma_filter_contains_rev(p, s.last());
                    let k = choose|k: int| 0 <= k < q.len() && q[k] == s.last();
                    assert(s[k] == s[s.len() - 1]);
                }
            }
            assert forall|a: int, b: int| 0 <= a < b < f.push(s.last()).len() implies f.push(s.last())[a]
                != f.push(s.last())[b] by {
                if b < f.len() {
                } else {
                    assert(f.contains(f[a]));
                }
            }
        }
    }
}

proof fn lemma_seq_min(s: Seq<u64>) -> (i: int)
    requires
        s.len() > 0,
    ensures
        0 <= i < s.len(),
        forall|j: int| 0 <= j < s.len() ==> s[i] <= #[trigger] s[j],
    decreases s.len(),
{
    if s.len() == 1 {
        0
    } else {
        let k = lemma_seq_min(s.drop_last());
        assert forall|j: int| 0 <= j < s.len() - 1 implies s[k] <= #[trigger] s[j] by {
            assert(s.drop_last()[j] == s[j]);
            assert(s.drop_last()[k] == s[k]);
        }
        if s[s.len() - 1] < s[k] {
            s.len() - 1
        } else {
            k
        }
    }
}

/// Among distinct ids, at most `limit` have fewer than `limit` larger ones.
proof fn lemma_few_have_few_larger(s: Seq<u64>, limit: nat)
    requires
        s.no_duplicates(),
    ensures
        s.filter(|y: u64| larger_count(s, y) < limit).len() <= limit,
{
    broadcast use vstd::seq_lib::seq_to_set_is_finite;
    broadcast use vstd::seq_lib::group_filter_ensures;
    let pred = |y: u64| larger_count(s, y) < limit;
    let k = s.filter(pred);
    if k.len() > limit {
        lemma_filter_distinct(s, pred);
        let i0 = lemma_seq_min(k);
        let y0 = k[i0];
        assert(larger_count(s, y0) < limit);
        k.unique_seq_to_set();
        let a = k.to_set().remove(y0);
        assert(k.to_set().contains(y0));
        assert(a.len() == k.len() - 1);
        let big = s.filter(|y: u64| y > y0);
        assert(a.subset_of(big.to_set())) by {
            assert forall|z: u64| a.contains(z) implies big.to_set().contains(z) by {
                assert(k.contains(z));
                s.lemma_filter_contains_rev(pred, z);
                let j = choose|j: int| 0 <= j < s.len() && s[j] == z;
                let jk = choose|jk: int| 0 <= jk < k.len() && k[jk] == z;
                assert(k[i0] <= k[jk]);
                assert(z > y0);
                assert(big.contains(s[j]));
            }
        }
        vstd::set_lib::lemma_len_subset(a, big.to_set());
        big.lemma_cardinality_of_set();
        assert(larger_count(s, y0) == big.len());
        assert(false);
    }
}

/// The ids of the id-keyed records of `ps` that trimming to `limit` keeps.
pub open spec fn kept_ids(ps: Seq<(Seq<u8>, Seq<u8>)>, limit: usize) -> Seq<u64> {
    key_ids(ps).filter(|y: u64| larger_count(key_ids(ps), y) < limit)
}

/// Trimming keeps at most `limit` id-keyed records: every id key left has
/// its id among `kept_ids`, and there are at most `limit` of those.
pub proof fn trim_keeps_at_most_limit(m: Map<Seq<u8>, Seq<u8>>, ps: Seq<(Seq<u8>, Seq<u8>)>, limit: usize)
    requires
        listing(m, ps),
    ensures
        kept_ids(ps, limit).len() <= limit,
        kept_ids(ps, limit).no_duplicates(),
        forall|k: Seq<u8>|
            #[trigger] trimmed(m, ps, limit).contains_key(k) && k.len() == 8 ==> kept_ids(ps, limit).contains(
                be_value(k) as u64,
            ),
{
    broadcast use vstd::seq_lib::group_filter_ensures;
    lemma_key_ids_distinct(ps);
    lemma_few_have_few_larger(key_ids(ps), limit as nat);
    let pred = |y: u64| larger_count(key_ids(ps), y) < limit;
    lemma_filter_distinct(key_ids(ps), pred);
    assert forall|k: Seq<u8>| #[trigger] trimmed(m, ps, limit).contains_key(k) && k.len() == 8 implies kept_ids(
        ps,
        limit,
    ).contains(be_value(k) as u64) by {
        assert(m.contains_key(k));
        let l = choose|l: int| 0 <= l < ps.len() && #[trigger] ps[l] == (k, m[k]);
        lemma_key_ids_has(ps, l);
        let j = choose|j: int| 0 <= j < key_ids(ps).len() && key_ids(ps)[j] == be_value(k) as u64;
        assert(!beyond_limit(ps, k, limit));
        assert(pred(key_ids(ps)[j]));
    }
}

/// After a store, at most `limit` id-keyed records remain: the id of each
/// is among at most `limit` distinct kept ids.
pub proof fn store_keeps_at_most_limit(
    m: Map<Seq<u8>, Seq<u8>>,
    e: Entry,
    limit: usize,
    after: Map<Seq<u8>, Seq<u8>>,
)
    requires
        stored_and_trimmed(m, e, limit, after),
    ensures
        exists|ids: Seq<u64>|
            {
                &&& ids.len() <= limit
                &&& ids.no_duplicates()
                &&& forall|k: Seq<u8>|
                    #[trigger] after.contains_key(k) && k.len() == 8 ==> ids.contains(be_value(k) as u64)
            },
{
    let sw = stored_with(m, e);
    let ps = choose|ps: Seq<(Seq<u8>, Seq<u8>)>|
        #[trigger] listing(sw, ps) && after == trimmed(sw, ps, limit);
    trim_keeps_at_most_limit(sw, ps, limit);
    let ids = kept_ids(ps, limit);
    assert forall|k: Seq<u8>| #[trigger] after.contains_key(k) && k.len() == 8 implies ids.contains(
        be_value(k) as u64,
    ) by {
        assert(trimmed(sw, ps, limit).contains_key(k));
    }
}

/// Some stored record decodes to `e`.
pub open spec fn stored_as(m: Map<Seq<u8>, Seq<u8>>, k: Seq<u8>, e: Entry) -> bool {
    &&& m.contains_key(k)
    &&& decode_spec(m[k]) matches Some(f) && decoded_as(e, f)
}

/// What storing `content` with `mime` at `now_ms` gives: the answer `r`
/// and the store `after`, from the store `before`.
#[verifier::opaque]
pub open spec fn store_outcome(
    before: Storage,
    after: Storage,
    content: String,
    mime: String,
    now_ms: u64,
    r: Result<Option<Entry>, StorageError>,
) -> bool {
    &&& after.history_limit() == before.history_limit()
    &&& after.size_limit() == before.size_limit()
    &&& {
        let size = encode_utf8(content@).len();
        if size == 0 || size > before.size_limit() {
            r matches Ok(None) && after.contents() == before.contents()
        } else {
            match r {
                Ok(Some(e)) => {
                    &&& e.content == content
                    &&& e.mime == mime
                    &&& e.preview@ == preview_spec(content@, mime@)
                    &&& e.size == size
                    &&& e.timestamp_ms == now_ms
                    &&& e.is_image == is_image_mime(mime@)
                    &&& e.hash == fnv1a(encode_utf8(content@))
                    &&& stored_and_trimmed(
                        before.contents(),
                        e,
                        before.history_limit(),
                        after.contents(),
                    )
                    &&& e.id >= before.id_floor()
                    &&& after.id_floor() > e.id
                    &&& before.fresh_ids() ==> {
                        &&& ids_below(before.contents(), e.id as nat)
                        &&& !before.contents().contains_key(id_key(e.id))
                        &&& after.fresh_ids()
                    }
                    &&& before.fresh_ids() && before.history_limit() >= 1 ==> {
                        &&& after.contents().contains_key(id_key(e.id))
                        &&& after.contents()[id_key(e.id)] == encode_spec(e)
                        &&& forall|k: Seq<u8>|
                            #[trigger] after.contents().contains_key(k) ==> (hash_of_record(
                                after.contents()[k],
                            ) == Some(e.hash) <==> k == id_key(e.id))
                    }
                },
                Ok(None) => false,
                Err(err) => err is Database,
            }
        }
    }
}

/// A store fails only on a database error: the answer is an error only when
/// the database reported one, whatever the content and its MIME type, and
/// content that is not empty and within the size limit is always stored
/// when no error comes.
pub proof fn store_fails_only_on_database_errors(
    before: Storage,
    after: Storage,
    content: String,
    mime: String,
    now_ms: u64,
    r: Result<Option<Entry>, StorageError>,
)
    requires
        store_outcome(before, after, content, mime, now_ms, r),
    ensures
        r matches Err(err) ==> err is Database,
        encode_utf8(content@).len() != 0 && encode_utf8(content@).len() <= before.size_limit() && r is Ok
            ==> (r matches Ok(Some(e)) && e.content == content && e.mime == mime && e.is_image
            == is_image_mime(mime@)),
        (encode_utf8(content@).len() == 0 || encode_utf8(content@).len() > before.size_limit()) ==> r
            matches Ok(None),
{
    reveal(store_outcome);
}

impl Storage {
    /// The record stored under `id`, decoded: `None` when there is none.
    pub fn get(&self, id: u64) -> (r: Result<Option<Entry>, StorageError>)
        requires
            self.contents().contains_key(id_key(id)) ==> decodable(self.contents()[id_key(id)]),
        ensures
            match r {
                Ok(None) => !self.contents().contains_key(id_key(id)),
                Ok(Some(e)) => stored_as(self.contents(), id_key(id), e),
                Err(StorageError::Decode(_)) => self.contents().contains_key(id_key(id))
                    && decode_spec(self.contents()[id_key(id)]) is None,
                Err(StorageError::Database(_)) => true,
            },
    {
        let key = key_of(id);
        match db_get(&self.db, key.as_slice()) {
            Err(e) => Err(StorageError::Database(e)),
            Ok(None) => Ok(None),
            Ok(Some(v)) => match decode_entry(v.as_slice()) {
                Ok(e) => Ok(Some(e)),
                Err(d) => Err(StorageError::Decode(d)),
            },
        }
    }

    /// `get` where the stored record can be decoded; `None` where the record
    /// under `id` holds no NUL byte after its header, which `get` cannot take apart.
    pub fn get_checked(&self, id: u64) -> (r: Option<Result<Option<Entry>, StorageError>>)
        ensures
            match r {
                None => self.contents().contains_key(id_key(id)) && !decodable(
                    self.contents()[id_key(id)],
                ),
                Some(Ok(None)) => !self.contents().contains_key(id_key(id)),
                Some(Ok(Some(e))) => stored_as(self.contents(), id_key(id), e),
                Some(Err(StorageError::Decode(_))) => self.contents().contains_key(id_key(id))
                    && decode_spec(self.contents()[id_key(id)]) is None,
                Some(Err(StorageError::Database(_))) => true,
            },
    {
        let key = key_of(id);
        match db_get(&self.db, key.as_slice()) {
            Err(e) => Some(Err(StorageError::Database(e))),
            Ok(None) => Some(Ok(None)),
            Ok(Some(v)) => {
                if v.len() >= 12 && content_end_at(v.as_slice()) == v.len() {
                    None
                } else {
                    Some(self.get(id))
                }
            },
        }
    }

    /// Deletes the record stored under `id`, answering whether there was one.
    /// Every other record stays as it was. After a database error nothing is
    /// stated of the database.
    pub fn delete(&mut self, id: u64) -> (r: Result<bool, StorageError>)
        ensures
            final(self).history_limit() == old(self).history_limit(),
            final(self).size_limit() == old(self).size_limit(),
            match r {
                Ok(false) => !old(self).contents().contains_key(id_key(id)) && final(self).contents()
                    == old(self).contents(),
                Ok(true) => old(self).contents().contains_key(id_key(id)) && final(self).contents()
                    == old(self).contents().remove(id_key(id)),
                Err(_) => true,
            },
            r is Ok ==> final(self).id_floor() == old(self).id_floor(),
            r is Ok && old(self).fresh_ids() ==> final(self).fresh_ids(),
    {
        let key = key_of(id);
        match db_get(&self.db, key.as_slice()) {
            Err(e) => Err(StorageError::Database(e)),
            Ok(None) => Ok(false),
            Ok(Some(_)) => match db_remove(&mut self.db, key.as_slice()) {
                Ok(_) => Ok(true),
                Err(e) => Err(StorageError::Database(e)),
            },
        }
    }

    /// Removes every record.
    pub fn clear(&mut self) -> (r: Result<(), StorageError>)
        ensures
            final(self).history_limit() == old(self).history_limit(),
            final(self).size_limit() == old(self).size_limit(),
            r is Ok ==> final(self).contents().dom() == Set::<Seq<u8>>::empty(),
            r is Ok ==> final(self).id_floor() == old(self).id_floor() && final(self).fresh_ids(),
    {
        match db_clear(&mut self.db) {
            Ok(()) => Ok(()),
            Err(e) => Err(StorageError::Database(e)),
        }
    }

    /// Whether a record carrying `hash` could be found among the records
    /// read. A record that could not be read is not looked at.
    pub fn contains_hash(&self, hash: u64) -> (b: bool)
        ensures
            exists|ps: Seq<(Seq<u8>, Seq<u8>)>|
                #[trigger] read_from(self.contents(), ps) && (b <==> exists|i: int|
                    0 <= i < ps.len() && hash_of_record(#[trigger] ps[i].1) == Some(hash)),
            b ==> exists|k: Seq<u8>|
                #[trigger] self.contents().contains_key(k) && hash_of_record(self.contents()[k])
                    == Some(hash),
    {
        let (pairs, _) = self.read_all();
        let ghost pv = pairs_view(pairs@);
        let mut i: usize = 0;
        while i < pairs.len()
            invariant
                0 <= i <= pairs@.len(),
                pv == pairs_view(pairs@),
                read_from(self.contents(), pv),
                forall|j: int| 0 <= j < i ==> hash_of_record(#[trigger] pv[j].1) != Some(hash),
            decreases pairs@.len() - i,
        {
            proof {
                assert(pv[i as int] == (pairs@[i as int].0@, pairs@[i as int].1@));
            }
            if extract_hash(pairs[i].1.as_slice()) == Some(hash) {
                proof {
                    let p = pv[i as int];
                    assert(self.contents().contains_key(p.0));
                    assert(hash_of_record(pv[i as int].1) == Some(hash));
                }
                return true;
            }
            i = i + 1;
        }
        false
    }
}

/// Where the content of a record ends (see `content_end`).
fn content_end_at(d: &[u8]) -> (i: usize)
    requires
        d@.len() >= 12,
    ensures
        i as int == content_end(d@),
        12 <= i <= d@.len(),
        i < d@.len() ==> d@[i as int] == 0,
        forall|k: int| 12 <= k < i ==> #[trigger] d@[k] != 0,
{
    let mut i: usize = 12;
    while i < d.len() && d[i] != 0
        invariant
            12 <= i <= d@.len(),
            forall|k: int| 12 <= k < i ==> #[trigger] d@[k] != 0,
        decreases d@.len() - i,
    {
        i = i + 1;
    }
    proof {
        let t = d@.subrange(12, d@.len() as int);
        assert forall|k: int| 0 <= k < i - 12 implies #[trigger] t[k] != 0 by {
            assert(t[k] == d@[k + 12]);
        }
        lemma_first_zero_unique(t, i - 12);
    }
    i
}


fn copy_record(e: &Entry) -> (c: Entry)
    ensures
        c == *e,
{
    Entry {
        id: e.id,
        content: e.content.clone(),
        mime: e.mime.clone(),
        preview: e.preview.clone(),
        size: e.size,
        timestamp_ms: e.timestamp_ms,
        is_image: e.is_image,
        hash: e.hash,
    }
}

/// `v` is ordered newest first.
pub open spec fn newest_first(v: Seq<Entry>) -> bool {
    forall|i: int, j: int| 0 <= i < j < v.len() ==> #[trigger] v[i].timestamp_ms >= #[trigger] v[j].timestamp_ms
}

/// Some stored record decodes to `e`.
pub open spec fn stored_somewhere(m: Map<Seq<u8>, Seq<u8>>, e: Entry) -> bool {
    exists|k: Seq<u8>| #[trigger] stored_as(m, k, e)
}

/// Each entry of `v` is what some stored record decodes to.
pub open spec fn all_stored(m: Map<Seq<u8>, Seq<u8>>, v: Seq<Entry>) -> bool {
    forall|i: int| 0 <= i < v.len() ==> #[trigger] stored_somewhere(m, v[i])
}

/// The stored values of `ps` that decode, decoded, in the order of `ps`.
pub open spec fn decoded_records(ps: Seq<(Seq<u8>, Seq<u8>)>) -> Seq<DecodedFields>
    decreases ps.len(),
{
    if ps.len() == 0 {
        Seq::empty()
    } else {
        let rest = decoded_records(ps.drop_last());
        match decode_spec(ps.last().1) {
            Some(f) => rest.push(f),
            None => rest,
        }
    }
}

/// The timestamps of `fs`, in order.
pub open spec fn stamps_of(fs: Seq<DecodedFields>) -> Seq<u64> {
    Seq::new(fs.len(), |j: int| fs[j].timestamp_ms as u64)
}

/// `v` is `fs` ranked newest first, records of equal time in the order of `fs`.
pub open spec fn ranked_newest_first(v: Seq<Entry>, fs: Seq<DecodedFields>) -> bool {
    exists|order: Seq<usize>|
        {
            &&& order.len() == fs.len()
            &&& v.len() == fs.len()
            &&& #[trigger] ranked_desc(stamps_of(fs), order)
            &&& forall|i: int| 0 <= i < v.len() ==> decoded_as(#[trigger] v[i], fs[order[i] as int])
        }
}

fn entries_of(pairs: &Vec<(Vec<u8>, Vec<u8>)>, Ghost(m): Ghost<Map<Seq<u8>, Seq<u8>>>) -> (v: Vec<Entry>)
    requires
        read_from(m, pairs_view(pairs@)),
        forall|i: int| 0 <= i < pairs@.len() ==> decodable(#[trigger] pairs@[i].1@),
    ensures
        all_stored(m, v@),
        newest_first(v@),
        ranked_newest_first(v@, decoded_records(pairs_view(pairs@))),
{
    let ghost pv = pairs_view(pairs@);
    let mut decoded: Vec<Entry> = Vec::new();
    let mut stamps: Vec<u64> = Vec::new();
    let mut i: usize = 0;
    while i < pairs.len()
        invariant
            0 <= i <= pairs@.len(),
            read_from(m, pairs_view(pairs@)),
            forall|j: int| 0 <= j < pairs@.len() ==> decodable(#[trigger] pairs@[j].1@),
            stamps@.len() == decoded@.len(),
            forall|j: int| 0 <= j < decoded@.len() ==> #[trigger] stamps@[j] == decoded@[j].timestamp_ms,
            all_stored(m, decoded@),
            pv == pairs_view(pairs@),
            decoded@.len() == decoded_records(pv.subrange(0, i as int)).len(),
            forall|j: int|
                0 <= j < decoded@.len() ==> decoded_as(
                    #[trigger] decoded@[j],
                    decoded_records(pv.subrange(0, i as int))[j],
                ),
        decreases pairs@.len() - i,
    {
        let ghost p = pairs_view(pairs@)[i as int];
        let ghost before = decoded_records(pv.subrange(0, i as int));
        proof {
            assert(p == (pairs@[i as int].0@, pairs@[i as int].1@));
            assert(decodable(pairs@[i as int].1@));
            assert(pv.subrange(0, i + 1).drop_last() =~= pv.subrange(0, i as int));
            assert(pv.subrange(0, i + 1).last() == p);
        }
        match decode_entry(pairs[i].1.as_slice()) {
            Ok(e) => {
                let ghost d0 = decoded@;
                stamps.push(e.timestamp_ms);
                decoded.push(e);
                proof {
                    let after = decoded_records(pv.subrange(0, i + 1));
                    assert(after == before.push(decode_spec(p.1)->0));
                    assert forall|j: int| 0 <= j < decoded@.len() implies decoded_as(
                        #[trigger] decoded@[j],
                        after[j],
                    ) by {
                        if j < d0.len() {
                            assert(decoded@[j] == d0[j]);
                        }
                    }
                    assert(stored_as(m, p.0, decoded@[d0.len() as int]));
                    assert forall|j: int| 0 <= j < decoded@.len() implies #[trigger] stored_somewhere(m, decoded@[j]) by {
                        if j < d0.len() {
                            assert(decoded@[j] == d0[j]);
                        } else {
                            assert(stored_as(m, p.0, decoded@[j]));
                        }
                    }
                    assert(all_stored(m, decoded@));
                }
            },
            Err(_) => {
                proof {
                    assert(decoded_records(pv.subrange(0, i + 1)) == before);
                }
            },
        }
        i = i + 1;
    }
    let ghost fs = decoded_records(pv.subrange(0, pairs@.len() as int));
    proof {
        assert(pv.subrange(0, pairs@.len() as int) =~= pv);
        assert(stamps@ =~= stamps_of(fs)) by {
            assert forall|j: int| 0 <= j < stamps@.len() implies stamps@[j] == stamps_of(fs)[j] by {
                assert(decoded_as(decoded@[j], fs[j]));
            }
        }
    }
    let order = rank_desc(stamps.as_slice(), stamps.len());
    let mut out: Vec<Entry> = Vec::new();
    let mut j: usize = 0;
    while j < order.len()
        invariant
            0 <= j <= order@.len(),
            order@.len() == stamps@.len(),
            stamps@.len() == decoded@.len(),
            forall|l: int| 0 <= l < decoded@.len() ==> #[trigger] stamps@[l] == decoded@[l].timestamp_ms,
            ranked_desc(stamps@, order@),
            all_stored(m, decoded@),
            decoded@.len() == fs.len(),
            stamps@ == stamps_of(fs),
            fs == decoded_records(pairs_view(pairs@)),
            forall|l: int| 0 <= l < decoded@.len() ==> decoded_as(#[trigger] decoded@[l], fs[l]),
            out@.len() == j,
            forall|l: int| 0 <= l < j ==> #[trigger] out@[l] == decoded@[order@[l] as int],
        decreases order@.len() - j,
    {
        let k = order[j];
        out.push(copy_record(&decoded[k]));
        j = j + 1;
    }
    proof {
        assert forall|a: int| 0 <= a < out@.len() implies #[trigger] stored_somewhere(m, out@[a]) by {
            assert(out@[a] == decoded@[order@[a] as int]);
            assert(order@[a] < decoded@.len());
            assert(stored_somewhere(m, decoded@[order@[a] as int]));
        }
        assert forall|a: int, b: int| 0 <= a < b < out@.len() implies #[trigger] out@[a].timestamp_ms
            >= #[trigger] out@[b].timestamp_ms by {
            assert(out@[a] == decoded@[order@[a] as int]);
            assert(out@[b] == decoded@[order@[b] as int]);
            assert(key_before(stamps@, order@[a] as int, order@[b] as int));
        }
        assert(all_stored(m, out@));
        assert forall|a: int| 0 <= a < out@.len() implies decoded_as(
            #[trigger] out@[a],
            fs[order@[a] as int],
        ) by {
            assert(out@[a] == decoded@[order@[a] as int]);
            assert(order@[a] < decoded@.len());
        }
        assert(ranked_desc(stamps_of(fs), order@));
    }
    out
}

impl Storage {
    /// The records that could be read and decoded, newest first. A record
    /// that could not be read, or does not decode, is left out.
    pub fn list(&self) -> (r: Result<Vec<Entry>, StorageError>)
        requires
            all_decodable(self.contents()),
        ensures
            r matches Ok(v) && all_stored(self.contents(), v@) && newest_first(v@),
            r matches Ok(v) && exists|ps: Seq<(Seq<u8>, Seq<u8>)>|
                #[trigger] read_from(self.contents(), ps) && ranked_newest_first(v@, decoded_records(ps)),
    {
        let (pairs, _) = self.read_all();
        proof {
            assert forall|i: int| 0 <= i < pairs@.len() implies decodable(#[trigger] pairs@[i].1@) by {
                let p = pairs_view(pairs@)[i];
                assert(p == (pairs@[i].0@, pairs@[i].1@));
                assert(self.contents().contains_key(p.0));
            }
        }
        let v = entries_of(&pairs, Ghost(self.contents()));
        proof {
            assert(read_from(self.contents(), pairs_view(pairs@)));
        }
        Ok(v)
    }

    /// `list` where every record read can be decoded; `None` where one of
    /// them holds no NUL byte after its header, which `list` cannot take apart.
    pub fn list_checked(&self) -> (r: Option<Result<Vec<Entry>, StorageError>>)
        ensures
            r is None ==> !all_decodable(self.contents()),
            r matches Some(x) ==> (x matches Ok(v) && all_stored(self.contents(), v@) && newest_first(v@)),
    {
        let (pairs, _) = self.read_all();
        let mut i: usize = 0;
        while i < pairs.len()
            invariant
                0 <= i <= pairs@.len(),
                read_from(self.contents(), pairs_view(pairs@)),
                forall|j: int| 0 <= j < i ==> decodable(#[trigger] pairs@[j].1@),
            decreases pairs@.len() - i,
        {
            let v = &pairs[i].1;
            proof {
                let p = pairs_view(pairs@)[i as int];
                assert(p == (pairs@[i as int].0@, pairs@[i as int].1@));
                assert(self.contents().contains_key(p.0));
            }
            if v.len() >= 12 && content_end_at(v.as_slice()) == v.len() {
                proof {
                    let p = pairs_view(pairs@)[i as int];
                    assert(!decodable(self.contents()[p.0]));
                }
                return None;
            }
            i = i + 1;
        }
        Some(Ok(entries_of(&pairs, Ghost(self.contents()))))
    }

    /// Removes the records beyond the `max_history` newest (largest ids),
    /// answering the first database error met; after an error nothing is
    /// stated of the database.
    #[verifier::spinoff_prover]
    #[verifier::rlimit(40)]
    fn trim(&mut self) -> (r: Result<(), sled::Error>)
        ensures
            final(self).history_limit() == old(self).history_limit(),
            final(self).size_limit() == old(self).size_limit(),
            r is Ok ==> exists|ps: Seq<(Seq<u8>, Seq<u8>)>|
                #[trigger] listing(old(self).contents(), ps) && final(self).contents() == trimmed(
                    old(self).contents(),
                    ps,
                    old(self).history_limit(),
                ),
            r is Ok ==> final(self).id_floor() == old(self).id_floor(),
    {
        let ghost m = self.contents();
        let (pairs, err) = self.read_all();
        if let Some(e) = err {
            return Err(e);
        }
        let ghost pv = pairs_view(pairs@);
        proof {
            assert(listing(m, pv));
        }
        let mut ids: Vec<u64> = Vec::new();
        let mut at: Vec<usize> = Vec::new();
        let mut i: usize = 0;
        while i < pairs.len()
            invariant
                0 <= i <= pairs@.len(),
                pv == pairs_view(pairs@),
                ids@.len() == at@.len(),
                ids@ == key_ids(pv.subrange(0, i as int)),
                forall|j: int| 0 <= j < at@.len() ==> #[trigger] at@[j] < i,
                forall|j: int|
                    0 <= j < at@.len() ==> pv[#[trigger] at@[j] as int].0.len() == 8 && ids@[j]
                        == be_value(pv[at@[j] as int].0) as u64,
                forall|l: int|
                    0 <= l < i && #[trigger] pv[l].0.len() == 8 ==> exists|j: int|
                        0 <= j < at@.len() && at@[j] == l,
            decreases pairs@.len() - i,
        {
            proof {
                assert(pv.subrange(0, i + 1).drop_last() =~= pv.subrange(0, i as int));
                assert(pv.subrange(0, i + 1).last() == pv[i as int]);
                assert(pv[i as int] == (pairs@[i as int].0@, pairs@[i as int].1@));
            }
            if pairs[i].0.len() == 8 {
                let ghost at0 = at@;
                let v = read_be(pairs[i].0.as_slice(), 0, 8);
                proof {
                    assert(pairs@[i as int].0@.subrange(0, 8) =~= pairs@[i as int].0@);
                }
                ids.push(v);
                at.push(i);
                proof {
                    assert forall|l: int| 0 <= l < i + 1 && #[trigger] pv[l].0.len() == 8 implies exists|j: int|
                        0 <= j < at@.len() && at@[j] == l by {
                        if l == i {
                            assert(at@[at@.len() - 1] == l);
                        } else {
                            let j = choose|j: int| 0 <= j < at0.len() && at0[j] == l;
                            assert(at@[j] == l);
                        }
                    }
                }
            }
            i = i + 1;
        }
        proof {
            assert(pv.subrange(0, pairs@.len() as int) =~= pv);
        }
        let targets = trim_targets(&ids, self.max_history);
        let ghost limit = self.max_history;
        let ghost mut removed: Seq<Seq<u8>> = Seq::empty();
        let mut t: usize = 0;
        while t < targets.len()
            invariant
                0 <= t <= targets@.len(),
                forall|k: int| 0 <= k < targets@.len() ==> #[trigger] targets@[k] < ids@.len(),
                pv == pairs_view(pairs@),
                ids@.len() == at@.len(),
                forall|j: int| 0 <= j < at@.len() ==> #[trigger] at@[j] < pairs@.len(),
                self.max_history == old(self).max_history,
                self.max_entry_size == old(self).max_entry_size,
                self.id_floor() == old(self).id_floor(),
                limit == self.max_history,
                removed.len() == t,
                forall|u: int| 0 <= u < t ==> #[trigger] removed[u] == pv[at@[targets@[u] as int] as int].0,
                self.contents() == Map::new(
                    |k: Seq<u8>| m.contains_key(k) && !removed.contains(k),
                    |k: Seq<u8>| m[k],
                ),
            decreases targets@.len() - t,
        {
            let idx = at[targets[t]];
            let ghost c0 = self.contents();
            match db_remove(&mut self.db, pairs[idx].0.as_slice()) {
                Ok(_) => {},
                Err(e) => return Err(e),
            }
            proof {
                let key = pv[idx as int].0;
                assert(pv[idx as int] == (pairs@[idx as int].0@, pairs@[idx as int].1@));
                let r0 = removed;
                removed = removed.push(key);
                assert forall|k: Seq<u8>| r0.contains(k) || k == key <==> #[trigger] removed.contains(k) by {
                    if r0.contains(k) {
                        let u = choose|u: int| 0 <= u < r0.len() && r0[u] == k;
                        assert(removed[u] == k);
                    }
                    if k == key {
                        assert(removed[removed.len() - 1] == k);
                    }
                    if removed.contains(k) && k != key {
                        let u = choose|u: int| 0 <= u < removed.len() && removed[u] == k;
                        assert(r0[u] == k);
                    }
                }
                assert(self.contents() =~= Map::new(
                    |k: Seq<u8>| m.contains_key(k) && !removed.contains(k),
                    |k: Seq<u8>| m[k],
                ));
            }
            t = t + 1;
        }
        proof {
            assert forall|k: Seq<u8>| m.contains_key(k) implies (removed.contains(k) <==> #[trigger] beyond_limit(
                pv,
                k,
                limit,
            )) by {
                if removed.contains(k) {
                    let u = choose|u: int| 0 <= u < removed.len() && removed[u] == k;
                    let j = targets@[u] as int;
                    assert(targets@.contains(j as usize));
                    assert(larger_count(ids@, ids@[j]) >= limit);
                    assert(pv[at@[j] as int].0.len() == 8);
                }
                if beyond_limit(pv, k, limit) {
                    let l = choose|l: int| 0 <= l < pv.len() && #[trigger] pv[l] == (k, m[k]);
                    assert(pv[l].0.len() == 8);
                    let j = choose|j: int| 0 <= j < at@.len() && at@[j] == l;
                    assert(ids@[j] == be_value(k) as u64);
                    assert(targets@.contains(j as usize));
                    let u = choose|u: int| 0 <= u < targets@.len() && targets@[u] == j as usize;
                    assert(removed[u] == k);
                }
            }
            assert(self.contents() =~= trimmed(m, pv, limit));
        }
        Ok(())
    }

    /// Stores a new clipboard content at time `now_ms` and answers the record
    /// made, or `None` for empty content and content over the size limit.
    /// The records with the same content hash are removed first, the new
    /// record is written under its id, and the history is cut to the
    /// `history_limit()` newest id-keyed records. The first database error
    /// met is answered; after one, nothing is stated of the database.
    pub fn store_at(&mut self, content: String, mime: String, now_ms: u64) -> (r: Result<
        Option<Entry>,
        StorageError,
    >)
        requires
            encode_utf8(content@).len() < 0x20_0000_0000_0000,
            encode_utf8(content@).len() != 0 && encode_utf8(content@).len() <= old(self).size_limit()
                ==> preview_cut_ok(content@, mime@),
        ensures
            final(self).history_limit() == old(self).history_limit(),
            final(self).size_limit() == old(self).size_limit(),
            store_outcome(*old(self), *final(self), content, mime, now_ms, r),
    {
        proof {
            reveal(store_outcome);
        }
        let size = content.as_str().as_bytes().len();
        if size == 0 || size > self.max_entry_size {
            return Ok(None);
        }
        let hash = compute_hash(content.as_str().as_bytes());
        let ghost m0 = self.contents();
        let (pairs, err) = self.read_all();
        if let Some(e) = err {
            return Err(StorageError::Database(e));
        }
        let ghost pv = pairs_view(pairs@);
        let ghost mut removed: Seq<Seq<u8>> = Seq::empty();
        let mut i: usize = 0;
        while i < pairs.len()
            invariant
                0 <= i <= pairs@.len(),
                self.max_history == old(self).max_history,
                self.max_entry_size == old(self).max_entry_size,
                encode_utf8(content@).len() != 0,
                encode_utf8(content@).len() <= old(self).size_limit(),
                self.id_floor() == old(self).id_floor(),
                pv == pairs_view(pairs@),
                read_from(m0, pv),
                forall|u: int|
                    0 <= u < removed.len() ==> exists|j: int|
                        0 <= j < i && pv[j].0 == #[trigger] removed[u] && hash_of_record(pv[j].1)
                            == Some(hash),
                forall|j: int|
                    0 <= j < i && hash_of_record(#[trigger] pv[j].1) == Some(hash) ==> removed.contains(pv[j].0),
                self.contents() == Map::new(
                    |k: Seq<u8>| m0.contains_key(k) && !removed.contains(k),
                    |k: Seq<u8>| m0[k],
                ),
            decreases pairs@.len() - i,
        {
            proof {
                assert(pv[i as int] == (pairs@[i as int].0@, pairs@[i as int].1@));
            }
            if extract_hash(pairs[i].1.as_slice()) == Some(hash) {
                match db_remove(&mut self.db, pairs[i].0.as_slice()) {
                    Ok(_) => {},
                    Err(e) => {
                        proof {
                            reveal(store_outcome);
                        }
                        return Err(StorageError::Database(e));
                    },
                }
                proof {
                    let key = pv[i as int].0;
                    let r0 = removed;
                    removed = removed.push(key);
                    assert forall|k: Seq<u8>| r0.contains(k) || k == key <==> #[trigger] removed.contains(k) by {
                        if r0.contains(k) {
                            let u = choose|u: int| 0 <= u < r0.len() && r0[u] == k;
                            assert(removed[u] == k);
                        }
                        if k == key {
                            assert(removed[removed.len() - 1] == k);
                        }
                        if removed.contains(k) && k != key {
                            let u = choose|u: int| 0 <= u < removed.len() && removed[u] == k;
                            assert(r0[u] == k);
                        }
                    }
                    assert forall|u: int| 0 <= u < removed.len() implies exists|j: int|
                        0 <= j < i + 1 && pv[j].0 == #[trigger] removed[u] && hash_of_record(pv[j].1)
                            == Some(hash) by {
                        if u < r0.len() {
                            assert(removed[u] == r0[u]);
                        } else {
                            assert(pv[i as int].0 == removed[u]);
                        }
                    }
                    assert(self.contents() =~= Map::new(
                        |k: Seq<u8>| m0.contains_key(k) && !removed.contains(k),
                        |k: Seq<u8>| m0[k],
                    ));
                }
            }
            i = i + 1;
        }
        proof {
            assert forall|k: Seq<u8>| m0.contains_key(k) implies (removed.contains(k) <==> hash_of_record(
                #[trigger] m0[k],
            ) == Some(hash)) by {
                if removed.contains(k) {
                    let u = choose|u: int| 0 <= u < removed.len() && removed[u] == k;
                    let j = choose|j: int|
                        0 <= j < i && pv[j].0 == #[trigger] removed[u] && hash_of_record(pv[j].1)
                            == Some(hash);
                    assert(m0[pv[j].0] == pv[j].1);
                }
                if hash_of_record(m0[k]) == Some(hash) {
                    let l = choose|l: int| 0 <= l < pv.len() && #[trigger] pv[l] == (k, m0[k]);
                    assert(hash_of_record(pv[l].1) == Some(hash));
                }
            }
            assert(self.contents() =~= without_hash(m0, hash));
        }
        let id = match db_generate_id(&mut self.db) {
            Ok(id) => id,
            Err(e) => return Err(StorageError::Database(e)),
        };
        let entry = match build_entry(id, content, mime, now_ms, self.max_entry_size) {
            Some(e) => e,
            None => return Ok(None),
        };
        let key = key_of(id);
        let value = encode_entry(&entry);
        match db_insert(&mut self.db, key.as_slice(), value) {
            Ok(_) => {},
            Err(e) => return Err(StorageError::Database(e)),
        }
        proof {
            assert(self.contents() == stored_with(m0, entry));
        }
        let ghost floor1 = self.id_floor();
        match self.trim() {
            Ok(()) => {},
            Err(e) => return Err(StorageError::Database(e)),
        }
        proof {
            let sw = stored_with(m0, entry);
            let limit = self.max_history;
            let after = self.contents();
            let ps = choose|ps: Seq<(Seq<u8>, Seq<u8>)>|
                #[trigger] listing(sw, ps) && after == trimmed(sw, ps, limit);
            lemma_be_bytes_len(id as nat, 8);
            lemma_pow256_8();
            lemma_be_roundtrip(id as nat, 8);
            if old(self).fresh_ids() {
                assert(ids_below(m0, id as nat));
                assert(!m0.contains_key(id_key(id)));
                assert forall|k: Seq<u8>| #[trigger] after.contains_key(k) && k.len() == 8 implies be_value(k)
                    < self.id_floor() by {
                    assert(sw.contains_key(k));
                    if k != id_key(id) {
                        assert(m0.contains_key(k));
                    }
                }
                if limit >= 1 {
                    stored_record_is_kept(m0, entry, limit, after);
                }
            }
        }
        Ok(Some(entry))
    }

    /// `store_at` at the current time; the record's timestamp is the clock
    /// reading, which is not stated.
    pub fn store(&mut self, content: String, mime: String) -> (r: Result<Option<Entry>, StorageError>)
        requires
            encode_utf8(content@).len() < 0x20_0000_0000_0000,
            encode_utf8(content@).len() != 0 && encode_utf8(content@).len() <= old(self).size_limit()
                ==> preview_cut_ok(content@, mime@),
        ensures
            exists|now: u64| #[trigger] store_outcome(*old(self), *final(self), content, mime, now, r),
    {
        self.store_at(content, mime, crate::clock::now_ms())
    }
}

} // verus!
