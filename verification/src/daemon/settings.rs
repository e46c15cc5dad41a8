//! Reading and changing one `section.key` setting in the text of the
//! daemon's TOML configuration, as the `Get` and `Set` requests do.
use vstd::prelude::*;
use crate::text::{
    lemma_lines_of_join,
    append_chars, chars_of, contains, ends_with, find_char, first_index_of, has_prefix, has_suffix,
    join, join_with, lines, lines_of, no_newline, seqs_of, slice_to_vec, split_char, split_on_char, starts_with,
    string_of, trim, trim_chars,
};

verus! {

// ── Specifications ──────────────────────────────────────────────────────────

/// The section part of a key: the text before its first `.`.
pub open spec fn section_part(key: Seq<char>) -> Seq<char> {
    split_char(key, '.')[0]
}

/// The key part of a key: the text after its first `.` (up to a second
/// one), or the whole key when it has no `.`.
pub open spec fn key_part(key: Seq<char>) -> Seq<char> {
    let parts = split_char(key, '.');
    if parts.len() > 1 {
        parts[1]
    } else {
        key
    }
}

pub open spec fn header_of(section: Seq<char>) -> Seq<char> {
    "["@ + section + "]"@
}

pub open spec fn is_header(t: Seq<char>) -> bool {
    starts_with(t, "["@) && ends_with(t, "]"@)
}

/// A trimmed line that sets `k`: it starts with `k` and holds an `=`.
pub open spec fn sets_key(t: Seq<char>, k: Seq<char>) -> bool {
    starts_with(t, k) && contains(t, "="@)
}

/// The value of a setting line: the text after its first `=`, trimmed.
pub open spec fn value_part(t: Seq<char>) -> Seq<char> {
    trim(t.subrange(first_index_of(t, '=') + 1, t.len() as int))
}

/// The value of `k` in section `sec`: the first line of the section that
/// sets it; the search ends at the next section header.
pub open spec fn lookup(ls: Seq<Seq<char>>, sec: Seq<char>, k: Seq<char>, in_sec: bool) -> Option<Seq<char>>
    decreases ls.len(),
{
    if ls.len() == 0 {
        None
    } else {
        let t = trim(ls[0]);
        if t == header_of(sec) {
            lookup(ls.drop_first(), sec, k, true)
        } else if in_sec && is_header(t) {
            None
        } else if in_sec && sets_key(t, k) {
            Some(value_part(t))
        } else {
            lookup(ls.drop_first(), sec, k, in_sec)
        }
    }
}

/// Index of the line that sets `k` in a section named `sec` (every such
/// section is searched, in order).
pub open spec fn setting_index(ls: Seq<Seq<char>>, sec: Seq<char>, k: Seq<char>, in_sec: bool) -> Option<int>
    decreases ls.len(),
{
    if ls.len() == 0 {
        None
    } else {
        let t = trim(ls[0]);
        if t == header_of(sec) {
            shifted(setting_index(ls.drop_first(), sec, k, true))
        } else if in_sec && is_header(t) {
            shifted(setting_index(ls.drop_first(), sec, k, false))
        } else if in_sec && sets_key(t, k) {
            Some(0)
        } else {
            shifted(setting_index(ls.drop_first(), sec, k, in_sec))
        }
    }
}

pub open spec fn shifted(o: Option<int>) -> Option<int> {
    match o {
        Some(j) => Some(j + 1),
        None => None,
    }
}

/// The value that `Get` reports for `key` in the configuration text.
pub open spec fn get_setting(content: Seq<char>, key: Seq<char>) -> Option<Seq<char>> {
    lookup(lines(content), section_part(key), key_part(key), false)
}

/// The configuration text after `Set`: the line that sets the key is
/// replaced by `key = value`, and the lines are joined with `\n`; `None`
/// when no such line exists.
pub open spec fn set_setting(content: Seq<char>, key: Seq<char>, value: Seq<char>) -> Option<Seq<char>> {
    let ls = lines(content);
    match setting_index(ls, section_part(key), key_part(key), false) {
        Some(i) => Some(join(ls.update(i, key_part(key) + " = "@ + value), "\n"@)),
        None => None,
    }
}

// ── Helpers ─────────────────────────────────────────────────────────────────

fn eq_chars(a: &[char], b: &[char]) -> (r: bool)
    ensures
        r == (a@ == b@),
{
    let r = a.len() == b.len() && has_prefix(a, b);
    proof {
        if r || a@ == b@ {
            assert(a@.subrange(0, b@.len() as int) =~= a@);
        }
    }
    r
}

fn key_parts(key: &str) -> (r: (Vec<char>, Vec<char>))
    ensures
        r.0@ == section_part(key@),
        r.1@ == key_part(key@),
{
    let cs = chars_of(key);
    let parts = split_on_char(cs.as_slice(), '.');
    proof {
        crate::text::lemma_split_char_nonempty(key@, '.');
    }
    let sec = slice_to_vec(parts[0].as_slice(), 0, parts[0].len());
    proof {
        assert(seqs_of(parts@)[0] == parts@[0]@);
        assert(parts@[0]@.subrange(0, parts@[0]@.len() as int) =~= parts@[0]@);
    }
    if parts.len() > 1 {
        proof {
            assert(seqs_of(parts@)[1] == parts@[1]@);
            assert(parts@[1]@.subrange(0, parts@[1]@.len() as int) =~= parts@[1]@);
        }
        (sec, slice_to_vec(parts[1].as_slice(), 0, parts[1].len()))
    } else {
        (sec, cs)
    }
}

fn header_chars(sec: &[char]) -> (h: Vec<char>)
    ensures
        h@ == header_of(sec@),
{
    let mut h = chars_of("[");
    append_chars(&mut h, sec);
    append_chars(&mut h, chars_of("]").as_slice());
    h
}

fn is_header_chars(t: &[char]) -> (b: bool)
    ensures
        b == is_header(t@),
{
    has_prefix(t, chars_of("[").as_slice()) && has_suffix(t, chars_of("]").as_slice())
}

fn sets_key_chars(t: &[char], k: &[char]) -> (b: bool)
    ensures
        b == sets_key(t@, k@),
        b ==> first_index_of(t@, '=') < t@.len(),
{
    let eq = find_char(t, '=');
    proof {
        crate::text::lemma_first_index_of(t@, '=');
        reveal_strlit("=");
        if eq < t@.len() {
            assert(crate::text::occurs_at(t@, "="@, eq as int)) by {
                assert(t@.subrange(eq as int, eq + 1) =~= "="@);
            }
        }
        if contains(t@, "="@) {
            let i = choose|i: int| crate::text::occurs_at(t@, "="@, i);
            assert(t@.subrange(i, i + 1)[0] == t@[i]);
        }
    }
    has_prefix(t, k) && eq < t.len()
}

fn value_part_chars(t: &[char]) -> (v: Vec<char>)
    requires
        first_index_of(t@, '=') < t@.len(),
    ensures
        v@ == value_part(t@),
{
    let eq = find_char(t, '=');
    assert(eq < t.len());
    let rest = slice_to_vec(t, eq + 1, t.len());
    trim_chars(rest.as_slice())
}

// ── The requests ────────────────────────────────────────────────────────────

/// The value of a `section.key` setting in the configuration text, as `Get`
/// reports it; `None` when the key is not found.
pub fn config_get(content: &str, key: &str) -> (r: Option<String>)
    ensures
        match r {
            Some(v) => get_setting(content@, key@) == Some(v@),
            None => get_setting(content@, key@) is None,
        },
{
    let (sec, k) = key_parts(key);
    let header = header_chars(sec.as_slice());
    let ls = lines_of(chars_of(content).as_slice());
    let ghost all = seqs_of(ls@);
    let mut in_section = false;
    let mut i: usize = 0;
    proof {
        assert(all.subrange(0, all.len() as int) =~= all);
    }
    while i < ls.len()
        invariant
            0 <= i <= ls.len(),
            all == seqs_of(ls@),
            all == lines(content@),
            header@ == header_of(sec@),
            sec@ == section_part(key@),
            k@ == key_part(key@),
            lookup(all.subrange(i as int, all.len() as int), sec@, k@, in_section) == get_setting(
                content@,
                key@,
            ),
        decreases ls.len() - i,
    {
        let ghost rest = all.subrange(i as int, all.len() as int);
        proof {
            assert(rest[0] == ls@[i as int]@);
            assert(rest.drop_first() =~= all.subrange(i + 1, all.len() as int));
        }
        let t = trim_chars(ls[i].as_slice());
        if eq_chars(t.as_slice(), header.as_slice()) {
            in_section = true;
        } else if in_section && is_header_chars(t.as_slice()) {
            return None;
        } else if in_section && sets_key_chars(t.as_slice(), k.as_slice()) {
            let v = value_part_chars(t.as_slice());
            return Some(string_of(v.as_slice()));
        }
        i = i + 1;
    }
    proof {
        assert(all.subrange(i as int, all.len() as int) =~= Seq::<Seq<char>>::empty());
    }
    None
}

/// The configuration text with a `section.key` setting changed to `value`
/// (its rendering in TOML), as `Set` writes it; `None` when the setting is
/// not found in the section.
pub fn config_set(content: &str, key: &str, value: &str) -> (r: Option<String>)
    ensures
        match r {
            Some(c) => set_setting(content@, key@, value@) == Some(c@),
            None => set_setting(content@, key@, value@) is None,
        },
{
    let (sec, k) = key_parts(key);
    let header = header_chars(sec.as_slice());
    let ls = lines_of(chars_of(content).as_slice());
    let ghost all = seqs_of(ls@);
    let mut in_section = false;
    let mut i: usize = 0;
    proof {
        assert(all.subrange(0, all.len() as int) =~= all);
    }
    while i < ls.len()
        invariant
            0 <= i <= ls.len(),
            all == seqs_of(ls@),
            all == lines(content@),
            header@ == header_of(sec@),
            sec@ == section_part(key@),
            k@ == key_part(key@),
            match setting_index(all.subrange(i as int, all.len() as int), sec@, k@, in_section) {
                Some(j) => Some(j + i),
                None => None,
            } == setting_index(all, sec@, k@, false),
        decreases ls.len() - i,
    {
        let ghost rest = all.subrange(i as int, all.len() as int);
        proof {
            assert(rest[0] == ls@[i as int]@);
            assert(rest.drop_first() =~= all.subrange(i + 1, all.len() as int));
        }
        let t = trim_chars(ls[i].as_slice());
        if eq_chars(t.as_slice(), header.as_slice()) {
            in_section = true;
        } else if in_section && is_header_chars(t.as_slice()) {
            in_section = false;
        } else if in_section && sets_key_chars(t.as_slice(), k.as_slice()) {
            let mut line = slice_to_vec(k.as_slice(), 0, k.len());
            append_chars(&mut line, chars_of(" = ").as_slice());
            append_chars(&mut line, chars_of(value).as_slice());
            let mut out: Vec<Vec<char>> = Vec::new();
            let mut j: usize = 0;
            proof {
                assert(k@.subrange(0, k@.len() as int) =~= k@);
            }
            while j < ls.len()
                invariant
                    0 <= j <= ls.len(),
                    i < ls.len(),
                    all == seqs_of(ls@),
                    seqs_of(out@) == all.update(i as int, line@).subrange(0, j as int),
                decreases ls.len() - j,
            {
                let ghost before = seqs_of(out@);
                if j == i {
                    out.push(slice_to_vec(line.as_slice(), 0, line.len()));
                    proof {
                        assert(line@.subrange(0, line@.len() as int) =~= line@);
                    }
                } else {
                    out.push(slice_to_vec(ls[j].as_slice(), 0, ls[j].len()));
                    proof {
                        assert(ls@[j as int]@.subrange(0, ls@[j as int]@.len() as int) =~= ls@[j as int]@);
                    }
                }
                proof {
                    assert(seqs_of(out@) =~= before.push(all.update(i as int, line@)[j as int]));
                    assert(all[j as int] == ls@[j as int]@);
                }
                j = j + 1;
                proof {
                    assert(seqs_of(out@) =~= all.update(i as int, line@).subrange(0, j as int));
                }
            }
            proof {
                assert(all.update(i as int, line@).subrange(0, ls@.len() as int) =~= all.update(i as int, line@));
            }
            let joined = join_with(&out, chars_of("\n").as_slice());
            return Some(string_of(joined.as_slice()));
        }
        i = i + 1;
    }
    proof {
        assert(all.subrange(i as int, all.len() as int) =~= Seq::<Seq<char>>::empty());
    }
    None
}

// ── Reading back what was written ───────────────────────────────────────────

/// Once a setting can be read, `setting_index` names the line it is read
/// from, and that line, replaced by any other line that sets the key, is
/// what is read instead.
proof fn lemma_lookup_update(ls: Seq<Seq<char>>, sec: Seq<char>, k: Seq<char>, in_sec: bool, x: Seq<char>)
    requires
        lookup(ls, sec, k, in_sec) is Some,
        trim(x) != header_of(sec),
        !is_header(trim(x)),
        sets_key(trim(x), k),
    ensures
        setting_index(ls, sec, k, in_sec) matches Some(i) && 0 <= i < ls.len() && sets_key(trim(ls[i]), k)
            && lookup(ls.update(i, x), sec, k, in_sec) == Some(value_part(trim(x))),
    decreases ls.len(),
{
    let t = trim(ls[0]);
    let rest = ls.drop_first();
    if t == header_of(sec) {
        lemma_lookup_update(rest, sec, k, true, x);
        let i = setting_index(rest, sec, k, true)->0;
        assert(ls.update(i + 1, x).drop_first() =~= rest.update(i, x));
        assert(ls.update(i + 1, x)[0] == ls[0]);
        assert(ls[i + 1] == rest[i]);
    } else if in_sec && is_header(t) {
    } else if in_sec && sets_key(t, k) {
        assert(ls.update(0, x)[0] == x);
    } else {
        lemma_lookup_update(rest, sec, k, in_sec, x);
        let i = setting_index(rest, sec, k, in_sec)->0;
        assert(ls.update(i + 1, x).drop_first() =~= rest.update(i, x));
        assert(ls.update(i + 1, x)[0] == ls[0]);
        assert(ls[i + 1] == rest[i]);
    }
}

/// Lookups see lines only trimmed, and trailing blank lines change nothing.
proof fn lemma_lookup_congruent(a: Seq<Seq<char>>, b: Seq<Seq<char>>, sec: Seq<char>, k: Seq<char>, in_sec: bool)
    requires
        a.len() <= b.len(),
        forall|j: int| 0 <= j < a.len() ==> trim(#[trigger] a[j]) == trim(b[j]),
        forall|j: int| a.len() <= j < b.len() ==> trim(#[trigger] b[j]).len() == 0,
    ensures
        lookup(a, sec, k, in_sec) == lookup(b, sec, k, in_sec),
    decreases b.len(),
{
    if b.len() > 0 {
        if a.len() > 0 {
            assert(trim(a[0]) == trim(b[0]));
            assert forall|j: int| 0 <= j < a.drop_first().len() implies trim(#[trigger] a.drop_first()[j])
                == trim(b.drop_first()[j]) by {
                assert(a.drop_first()[j] == a[j + 1]);
                assert(b.drop_first()[j] == b[j + 1]);
            }
            assert forall|j: int| a.drop_first().len() <= j < b.drop_first().len() implies trim(
                #[trigger] b.drop_first()[j],
            ).len() == 0 by {
                assert(b.drop_first()[j] == b[j + 1]);
            }
            let t = trim(a[0]);
            if t == header_of(sec) {
                lemma_lookup_congruent(a.drop_first(), b.drop_first(), sec, k, true);
            } else {
                lemma_lookup_congruent(a.drop_first(), b.drop_first(), sec, k, in_sec);
            }
        } else {
            let t = trim(b[0]);
            assert(t.len() == 0);
            reveal_strlit("[");
            reveal_strlit("=");
            assert(!starts_with(t, "["@));
            assert(!contains(t, "="@)) by {
                if contains(t, "="@) {
                    let i = choose|i: int| crate::text::occurs_at(t, "="@, i);
                }
            }
            assert(t != header_of(sec));
            assert forall|j: int| 0 <= j < b.drop_first().len() implies trim(#[trigger] b.drop_first()[j]).len()
                == 0 by {
                assert(b.drop_first()[j] == b[j + 1]);
            }
            lemma_lookup_congruent(a, b.drop_first(), sec, k, in_sec);
        }
    }
}

/// A setting that can be read reads back as written: after `Set` replaced
/// its line by `key = value`, `Get` reports the value part of that line.
/// The new line must itself read as a setting of the key (it starts with
/// the key, holds an `=`, and is no section header), and the value must
/// stay on one line.
pub proof fn set_then_get_reads_back(content: Seq<char>, key: Seq<char>, value: Seq<char>)
    requires
        get_setting(content, key) is Some,
        no_newline(value),
        trim(key_part(key) + " = "@ + value) != header_of(section_part(key)),
        !is_header(trim(key_part(key) + " = "@ + value)),
        sets_key(trim(key_part(key) + " = "@ + value), key_part(key)),
    ensures
        set_setting(content, key, value) matches Some(c) && get_setting(c, key) == Some(
            value_part(trim(key_part(key) + " = "@ + value)),
        ),
{
    let ls = lines(content);
    let sec = section_part(key);
    let k = key_part(key);
    let x = k + " = "@ + value;
    lemma_lookup_update(ls, sec, k, false, x);
    let i = setting_index(ls, sec, k, false)->0;
    let p = ls.update(i, x);
    crate::text::lemma_lines_no_newline(content);
    // The key is a prefix of a trimmed line, so it holds no line feed either.
    assert(no_newline(x)) by {
        reveal_strlit(" = ");
        let line = ls[i];
        let ts = crate::text::trim_start(line);
        let t = trim(line);
        crate::text::lemma_trim_start_suffix(line);
        crate::text::lemma_trim_end_prefix(ts);
        assert(no_newline(line));
        assert(starts_with(t, k));
        assert forall|j: int| 0 <= j < x.len() implies x[j] != '\n' by {
            if j < k.len() {
                let off = line.len() - ts.len();
                assert(t.subrange(0, k.len() as int)[j] == t[j]);
                assert(t[j] == ts[j]);
                assert(ts[j] == line[off + j]);
                assert(x[j] == k[j]);
            } else if j < k.len() + 3 {
                assert(x[j] == " = "@[j - k.len()]);
            } else {
                assert(x[j] == value[j - k.len() - 3]);
            }
        }
    }
    assert forall|j: int| 0 <= j < p.len() implies no_newline(#[trigger] p[j]) by {
        if j != i {
            assert(p[j] == ls[j]);
        }
    }
    lemma_lines_of_join(p);
    let q = lines(join(p, "\n"@));
    assert forall|j: int| q.len() <= j < p.len() implies trim(#[trigger] p[j]).len() == 0 by {
        assert(j == p.len() - 1);
        assert(p.last().len() == 0);
    }
    lemma_lookup_congruent(q, p, sec, k, false);
}

} // verus!
