//! The shell commands of the CLI: reading the IPC targets that `qs ipc show`
//! lists, completing IPC command lines, and the small decisions made around
//! launching and signalling the shell.
use vstd::prelude::*;
use crate::text::{
    append_chars, chars_of, first_index_of, find_char, has_prefix, has_suffix, lines,
    lines_of, parse_i32, parse_i32_spec, seqs_of, slice_to_vec, split_char, split_on_char, starts_with,
    ends_with, string_of, trim, trim_chars,
};

verus! {

// ── The IPC target table ────────────────────────────────────────────────────

/// A function a target offers, with the names of its arguments; when it
/// takes arguments, the list starts with the function's own name.
#[derive(Debug, Clone)]
pub struct IpcFunction {
    pub name: String,
    pub args: Vec<String>,
}

/// An IPC target and its functions, in the order they were listed.
#[derive(Debug, Clone)]
pub struct IpcTarget {
    pub name: String,
    pub functions: Vec<IpcFunction>,
}

/// The IPC targets, in the order they were listed; names are unique.
#[derive(Debug, Clone)]
pub struct IpcTargets {
    pub targets: Vec<IpcTarget>,
}

pub open spec fn strs(v: Seq<String>) -> Seq<Seq<char>> {
    v.map_values(|s: String| s@)
}

pub open spec fn function_view(f: IpcFunction) -> (Seq<char>, Seq<Seq<char>>) {
    (f.name@, strs(f.args@))
}

pub open spec fn functions_view(fs: Seq<IpcFunction>) -> Seq<(Seq<char>, Seq<Seq<char>>)> {
    fs.map_values(|f: IpcFunction| function_view(f))
}

pub open spec fn target_view(t: IpcTarget) -> (Seq<char>, Seq<(Seq<char>, Seq<Seq<char>>)>) {
    (t.name@, functions_view(t.functions@))
}

impl View for IpcTargets {
    type V = Seq<(Seq<char>, Seq<(Seq<char>, Seq<Seq<char>>)>)>;

    open spec fn view(&self) -> Seq<(Seq<char>, Seq<(Seq<char>, Seq<Seq<char>>)>)> {
        self.targets@.map_values(|t: IpcTarget| target_view(t))
    }
}

/// Position of the first entry with key `k`, or the length when none has it.
pub open spec fn key_index<V>(s: Seq<(Seq<char>, V)>, k: Seq<char>) -> int
    decreases s.len(),
{
    if s.len() == 0 {
        0
    } else if s[0].0 == k {
        0
    } else {
        1 + key_index(s.drop_first(), k)
    }
}

/// `s` with an entry for `k`: the existing one, or `(k, default)` at the end.
pub open spec fn ensure_key<V>(s: Seq<(Seq<char>, V)>, k: Seq<char>, default: V) -> Seq<(Seq<char>, V)> {
    if key_index(s, k) < s.len() {
        s
    } else {
        s.push((k, default))
    }
}

/// `s` with `k` mapped to `v`: the entry for `k` replaced, or added at the end.
pub open spec fn upsert<V>(s: Seq<(Seq<char>, V)>, k: Seq<char>, v: V) -> Seq<(Seq<char>, V)> {
    let i = key_index(s, k);
    if i < s.len() {
        s.update(i, (k, v))
    } else {
        s.push((k, v))
    }
}

/// `s` with every leading copy of `p` removed (`str::trim_start_matches`).
pub open spec fn strip_prefix_all(s: Seq<char>, p: Seq<char>) -> Seq<char>
    decreases s.len(),
{
    if p.len() > 0 && starts_with(s, p) {
        strip_prefix_all(s.subrange(p.len() as int, s.len() as int), p)
    } else {
        s
    }
}

/// The name of an argument declared as `name: type`.
pub open spec fn arg_name(a: Seq<char>) -> Seq<char> {
    let t = trim(a);
    trim(t.subrange(0, first_index_of(t, ':')))
}

pub open spec fn all_blank(args: Seq<Seq<char>>) -> bool {
    forall|i: int| 0 <= i < args.len() ==> trim(#[trigger] args[i]).len() == 0
}

/// A `  function name(arg: type, ...): result` line, read as the function's
/// name and its argument list (empty when it takes none).
pub open spec fn function_entry(line: Seq<char>) -> (Seq<char>, Seq<Seq<char>>) {
    let f = strip_prefix_all(line, "  function "@);
    let p = first_index_of(f, '(');
    let name = f.subrange(0, p);
    let rest = if p < f.len() {
        f.subrange(p + 1, f.len() as int)
    } else {
        ")"@
    };
    let arg_list = rest.subrange(0, first_index_of(rest, ')'));
    let args = split_char(arg_list, ',');
    if all_blank(args) {
        (name, Seq::empty())
    } else {
        (name, seq![name] + args.map_values(|a: Seq<char>| arg_name(a)))
    }
}

/// One line of `qs ipc show` applied to the table and the current target:
/// `target NAME` opens a target; a function line of an open target records
/// the function; other lines change nothing.
pub open spec fn parse_step(
    state: (Seq<(Seq<char>, Seq<(Seq<char>, Seq<Seq<char>>)>)>, Seq<char>),
    line: Seq<char>,
) -> (Seq<(Seq<char>, Seq<(Seq<char>, Seq<Seq<char>>)>)>, Seq<char>) {
    let ts = state.0;
    let cur = state.1;
    if starts_with(line, "target "@) {
        let name = trim(line.subrange(7, line.len() as int));
        (ensure_key(ts, name, Seq::empty()), name)
    } else if starts_with(line, "  function"@) && cur.len() > 0 {
        let entry = function_entry(line);
        let ts1 = ensure_key(ts, cur, Seq::empty());
        let i = key_index(ts1, cur);
        (ts1.update(i, (cur, upsert(ts1[i].1, entry.0, entry.1))), cur)
    } else {
        (ts, cur)
    }
}

pub open spec fn parse_lines(ls: Seq<Seq<char>>) -> (
    Seq<(Seq<char>, Seq<(Seq<char>, Seq<Seq<char>>)>)>,
    Seq<char>,
)
    decreases ls.len(),
{
    if ls.len() == 0 {
        (Seq::empty(), Seq::empty())
    } else {
        parse_step(parse_lines(ls.drop_last()), ls.last())
    }
}

/// The table that the output of `qs ipc show` describes.
pub open spec fn ipc_table(output: Seq<char>) -> Seq<(Seq<char>, Seq<(Seq<char>, Seq<Seq<char>>)>)> {
    parse_lines(lines(output)).0
}

proof fn lemma_key_index<V>(s: Seq<(Seq<char>, V)>, k: Seq<char>)
    ensures
        0 <= key_index(s, k) <= s.len(),
        key_index(s, k) < s.len() ==> s[key_index(s, k)].0 == k,
        forall|j: int| 0 <= j < key_index(s, k) ==> (#[trigger] s[j]).0 != k,
    decreases s.len(),
{
    if s.len() > 0 && s[0].0 != k {
        lemma_key_index(s.drop_first(), k);
        assert forall|j: int| 0 <= j < key_index(s, k) implies (#[trigger] s[j]).0 != k by {
            if j > 0 {
                assert(s[j] == s.drop_first()[j - 1]);
            }
        }
    }
}

proof fn lemma_key_index_at<V>(s: Seq<(Seq<char>, V)>, k: Seq<char>, i: int)
    requires
        0 <= i <= s.len(),
        i < s.len() ==> s[i].0 == k,
        forall|j: int| 0 <= j < i ==> (#[trigger] s[j]).0 != k,
    ensures
        key_index(s, k) == i,
    decreases i,
{
    if i > 0 {
        assert forall|j: int| 0 <= j < i - 1 implies (#[trigger] s.drop_first()[j]).0 != k by {
            assert(s.drop_first()[j] == s[j + 1]);
        }
        lemma_key_index_at(s.drop_first(), k, i - 1);
    }
}

proof fn lemma_ensure_key_index<V>(s: Seq<(Seq<char>, V)>, k: Seq<char>, d: V)
    ensures
        key_index(ensure_key(s, k, d), k) == key_index(s, k),
        key_index(s, k) < ensure_key(s, k, d).len(),
        ensure_key(s, k, d)[key_index(s, k)].0 == k,
{
    lemma_key_index(s, k);
    if key_index(s, k) == s.len() {
        let t = s.push((k, d));
        assert forall|j: int| 0 <= j < s.len() implies (#[trigger] t[j]).0 != k by {
            assert(t[j] == s[j]);
        }
        lemma_key_index_at(t, k, s.len() as int);
    }
}

fn same_chars(a: &[char], b: &[char]) -> (r: bool)
    ensures
        r == (a@ == b@),
{
    let r = a.len() == b.len() && has_prefix(a, b);
    proof {
        if r {
            assert(a@.subrange(0, b@.len() as int) =~= a@);
        }
        if a@ == b@ {
            assert(a@.subrange(0, b@.len() as int) =~= a@);
        }
    }
    r
}

fn find_target(ts: &Vec<IpcTarget>, name: &[char]) -> (i: usize)
    ensures
        i == key_index(ts@.map_values(|t: IpcTarget| target_view(t)), name@),
{
    let ghost v = ts@.map_values(|t: IpcTarget| target_view(t));
    let mut i: usize = 0;
    while i < ts.len()
        invariant
            0 <= i <= ts.len(),
            v == ts@.map_values(|t: IpcTarget| target_view(t)),
            forall|j: int| 0 <= j < i ==> (#[trigger] v[j]).0 != name@,
        decreases ts.len() - i,
    {
        let n = chars_of(ts[i].name.as_str());
        if same_chars(n.as_slice(), name) {
            proof {
                lemma_key_index_at(v, name@, i as int);
            }
            return i;
        }
        i = i + 1;
    }
    proof {
        lemma_key_index_at(v, name@, i as int);
    }
    i
}

fn find_function(fs: &Vec<IpcFunction>, name: &[char]) -> (i: usize)
    ensures
        i == key_index(functions_view(fs@), name@),
{
    let ghost v = functions_view(fs@);
    let mut i: usize = 0;
    while i < fs.len()
        invariant
            0 <= i <= fs.len(),
            v == functions_view(fs@),
            forall|j: int| 0 <= j < i ==> (#[trigger] v[j]).0 != name@,
        decreases fs.len() - i,
    {
        let n = chars_of(fs[i].name.as_str());
        if same_chars(n.as_slice(), name) {
            proof {
                lemma_key_index_at(v, name@, i as int);
            }
            return i;
        }
        i = i + 1;
    }
    proof {
        lemma_key_index_at(v, name@, i as int);
    }
    i
}

fn strings_of(v: &Vec<Vec<char>>) -> (r: Vec<String>)
    ensures
        strs(r@) == seqs_of(v@),
{
    let mut out: Vec<String> = Vec::new();
    let mut i: usize = 0;
    while i < v.len()
        invariant
            0 <= i <= v.len(),
            strs(out@) == seqs_of(v@).subrange(0, i as int),
        decreases v.len() - i,
    {
        let st = string_of(v[i].as_slice());
        let ghost before = out@;
        proof {
            assert(st@ == seqs_of(v@)[i as int]);
        }
        out.push(st);
        proof {
            assert(strs(out@) =~= strs(before).push(st@));
        }
        i = i + 1;
        assert(strs(out@) =~= seqs_of(v@).subrange(0, i as int));
    }
    assert(seqs_of(v@).subrange(0, v@.len() as int) =~= seqs_of(v@));
    out
}

fn strip_prefix_all_chars(s: &[char], p: &[char]) -> (r: Vec<char>)
    ensures
        r@ == strip_prefix_all(s@, p@),
{
    let mut pos: usize = 0;
    assert(s@.subrange(0, s@.len() as int) =~= s@);
    if p.len() == 0 {
        return slice_to_vec(s, 0, s.len());
    }
    loop
        invariant
            0 <= pos <= s.len(),
            p.len() > 0,
            strip_prefix_all(s@.subrange(pos as int, s@.len() as int), p@) == strip_prefix_all(s@, p@),
        decreases s.len() - pos,
    {
        let ghost t = s@.subrange(pos as int, s@.len() as int);
        let rest = slice_to_vec(s, pos, s.len());
        if has_prefix(rest.as_slice(), p) {
            proof {
                assert(t.subrange(p@.len() as int, t.len() as int) =~= s@.subrange(pos + p@.len(), s@.len() as int));
            }
            pos = pos + p.len();
        } else {
            return rest;
        }
    }
}

fn arg_name_of(a: &[char]) -> (r: Vec<char>)
    ensures
        r@ == arg_name(a@),
{
    let t = trim_chars(a);
    let c = find_char(t.as_slice(), ':');
    proof {
        crate::text::lemma_first_index_of(t@, ':');
    }
    let head = slice_to_vec(t.as_slice(), 0, c);
    trim_chars(head.as_slice())
}

fn function_entry_of(line: &[char]) -> (r: (Vec<char>, Vec<Vec<char>>))
    ensures
        r.0@ == function_entry(line@).0,
        seqs_of(r.1@) == function_entry(line@).1,
{
    let f = strip_prefix_all_chars(line, chars_of("  function ").as_slice());
    let p = find_char(f.as_slice(), '(');
    proof {
        crate::text::lemma_first_index_of(f@, '(');
    }
    let name = slice_to_vec(f.as_slice(), 0, p);
    let rest = if p < f.len() {
        slice_to_vec(f.as_slice(), p + 1, f.len())
    } else {
        chars_of(")")
    };
    proof {
        reveal_strlit(")");
    }
    let q = find_char(rest.as_slice(), ')');
    proof {
        crate::text::lemma_first_index_of(rest@, ')');
    }
    let arg_list = slice_to_vec(rest.as_slice(), 0, q);
    let args = split_on_char(arg_list.as_slice(), ',');
    let ghost sargs = seqs_of(args@);
    let mut blank = true;
    let mut i: usize = 0;
    while i < args.len()
        invariant
            0 <= i <= args.len(),
            sargs == seqs_of(args@),
            blank == all_blank(sargs.subrange(0, i as int)),
        decreases args.len() - i,
    {
        let t = trim_chars(args[i].as_slice());
        proof {
            assert(sargs[i as int] == args@[i as int]@);
            if blank && t.len() == 0 {
                assert forall|k: int| 0 <= k < i + 1 implies trim(#[trigger] sargs.subrange(0, i + 1)[k]).len() == 0 by {
                    if k < i {
                        assert(sargs.subrange(0, i + 1)[k] == sargs.subrange(0, i as int)[k]);
                    }
                }
            }
            if !(t.len() == 0) {
                assert(sargs.subrange(0, i + 1)[i as int] == sargs[i as int]);
            }
            if !blank {
                let k = choose|k: int| 0 <= k < i && !(trim(#[trigger] sargs.subrange(0, i as int)[k]).len() == 0);
                assert(sargs.subrange(0, i + 1)[k] == sargs.subrange(0, i as int)[k]);
            }
        }
        blank = blank && t.len() == 0;
        i = i + 1;
    }
    proof {
        assert(sargs.subrange(0, args@.len() as int) =~= sargs);
    }
    if blank {
        return (name, Vec::new());
    }
    let mut names: Vec<Vec<char>> = Vec::new();
    names.push(slice_to_vec(name.as_slice(), 0, name.len()));
    let mut j: usize = 0;
    proof {
        assert(name@.subrange(0, name@.len() as int) =~= name@);
    }
    while j < args.len()
        invariant
            0 <= j <= args.len(),
            sargs == seqs_of(args@),
            seqs_of(names@) == seq![name@] + sargs.subrange(0, j as int).map_values(
                |a: Seq<char>| arg_name(a),
            ),
        decreases args.len() - j,
    {
        let n = arg_name_of(args[j].as_slice());
        let ghost before = names@;
        names.push(n);
        proof {
            assert(sargs[j as int] == args@[j as int]@);
            assert(seqs_of(names@) =~= seqs_of(before).push(n@));
            assert(sargs.subrange(0, j + 1).map_values(|a: Seq<char>| arg_name(a)) =~= sargs.subrange(
                0,
                j as int,
            ).map_values(|a: Seq<char>| arg_name(a)).push(arg_name(sargs[j as int])));
            assert(seqs_of(names@) =~= seq![name@] + sargs.subrange(0, j + 1).map_values(
                |a: Seq<char>| arg_name(a),
            ));
        }
        j = j + 1;
    }
    proof {
        assert(sargs.subrange(0, args@.len() as int) =~= sargs);
    }
    (name, names)
}

/// Index of the entry for `k`, added with no functions when missing.
fn ensure_target(ts: &mut Vec<IpcTarget>, k: &[char]) -> (i: usize)
    ensures
        final(ts)@.map_values(|t: IpcTarget| target_view(t)) == ensure_key(
            old(ts)@.map_values(|t: IpcTarget| target_view(t)),
            k@,
            Seq::empty(),
        ),
        i == key_index(old(ts)@.map_values(|t: IpcTarget| target_view(t)), k@),
        i < final(ts)@.len(),
{
    let i = find_target(ts, k);
    proof {
        lemma_key_index(old(ts)@.map_values(|t: IpcTarget| target_view(t)), k@);
    }
    if i == ts.len() {
        ts.push(IpcTarget { name: string_of(k), functions: Vec::new() });
        proof {
            assert(functions_view(Seq::<IpcFunction>::empty()) =~= Seq::empty());
            assert(final(ts)@.map_values(|t: IpcTarget| target_view(t)) =~= old(ts)@.map_values(
                |t: IpcTarget| target_view(t),
            ).push((k@, Seq::empty())));
        }
    }
    i
}

impl IpcTargets {
    /// Record `name(args)` for the target at `i`, replacing an entry of that name.
    fn set_function(&mut self, i: usize, name: Vec<char>, args: Vec<Vec<char>>)
        requires
            i < old(self).targets@.len(),
        ensures
            final(self)@ == old(self)@.update(
                i as int,
                (old(self)@[i as int].0, upsert(old(self)@[i as int].1, name@, seqs_of(args@))),
            ),
    {
        let mut t = self.targets.remove(i);
        let j = find_function(&t.functions, name.as_slice());
        proof {
            lemma_key_index(functions_view(t.functions@), name@);
        }
        let f = IpcFunction { name: string_of(name.as_slice()), args: strings_of(&args) };
        let ghost fs0 = t.functions@;
        if j < t.functions.len() {
            t.functions.set(j, f);
            proof {
                assert(functions_view(t.functions@) =~= functions_view(fs0).update(
                    j as int,
                    (name@, seqs_of(args@)),
                ));
            }
        } else {
            t.functions.push(f);
            proof {
                assert(functions_view(t.functions@) =~= functions_view(fs0).push((name@, seqs_of(args@))));
            }
        }
        self.targets.insert(i, t);
        proof {
            assert(self@ =~= old(self)@.update(
                i as int,
                (old(self)@[i as int].0, upsert(old(self)@[i as int].1, name@, seqs_of(args@))),
            ));
        }
    }
}

/// Read the output of `qs ipc show`: each `target NAME` line opens a
/// target, and each `  function name(args): type` line below it records a
/// function of it with its argument names.
pub fn parse_targets_from_ipc_show_output(output: &str) -> (t: IpcTargets)
    ensures
        t@ == ipc_table(output@),
{
    let cs = chars_of(output);
    let ls = lines_of(cs.as_slice());
    let mut targets = IpcTargets { targets: Vec::new() };
    let mut current: Vec<char> = Vec::new();
    let target_kw = chars_of("target ");
    let function_kw = chars_of("  function");
    let ghost all = seqs_of(ls@);
    let mut i: usize = 0;
    proof {
        reveal_strlit("target ");
        assert(all.subrange(0, 0) =~= Seq::<Seq<char>>::empty());
        assert(targets@ =~= Seq::empty());
    }
    while i < ls.len()
        invariant
            0 <= i <= ls.len(),
            all == seqs_of(ls@),
            all == lines(output@),
            target_kw@ == "target "@,
            target_kw@.len() == 7,
            function_kw@ == "  function"@,
            (targets@, current@) == parse_lines(all.subrange(0, i as int)),
        decreases ls.len() - i,
    {
        let line = &ls[i];
        proof {
            assert(all[i as int] == line@);
            assert(all.subrange(0, i + 1).drop_last() =~= all.subrange(0, i as int));
            assert(all.subrange(0, i + 1).last() == line@);
        }
        let ghost st = parse_lines(all.subrange(0, i as int));
        proof {
            assert(parse_lines(all.subrange(0, i + 1)) == parse_step(st, line@));
        }
        if has_prefix(line.as_slice(), target_kw.as_slice()) {
            let after = slice_to_vec(line.as_slice(), 7, line.len());
            let name = trim_chars(after.as_slice());
            let _ = ensure_target(&mut targets.targets, name.as_slice());
            current = name;
        } else if has_prefix(line.as_slice(), function_kw.as_slice()) && current.len() > 0 {
            let (fname, args) = function_entry_of(line.as_slice());
            let k = ensure_target(&mut targets.targets, current.as_slice());
            proof {
                lemma_ensure_key_index(st.0, current@, Seq::<(Seq<char>, Seq<Seq<char>>)>::empty());
            }
            targets.set_function(k, fname, args);
            proof {
                assert(targets@[k as int].0 == current@);
            }
        }
        i = i + 1;
    }
    proof {
        assert(all.subrange(0, ls@.len() as int) =~= all);
    }
    targets
}

// ── Completion ──────────────────────────────────────────────────────────────

/// The functions of target `t` in the table, or none when it is not listed.
pub open spec fn functions_of(
    table: Seq<(Seq<char>, Seq<(Seq<char>, Seq<Seq<char>>)>)>,
    t: Seq<char>,
) -> Seq<(Seq<char>, Seq<Seq<char>>)> {
    let i = key_index(table, t);
    if i < table.len() {
        table[i].1
    } else {
        Seq::empty()
    }
}

/// The argument list of function `f` of target `t`, or none.
pub open spec fn args_of(
    table: Seq<(Seq<char>, Seq<(Seq<char>, Seq<Seq<char>>)>)>,
    t: Seq<char>,
    f: Seq<char>,
) -> Seq<Seq<char>> {
    let fs = functions_of(table, t);
    let j = key_index(fs, f);
    if j < fs.len() {
        fs[j].1
    } else {
        Seq::empty()
    }
}

pub open spec fn keys_of<V>(s: Seq<(Seq<char>, V)>) -> Seq<Seq<char>> {
    s.map_values(|e: (Seq<char>, V)| e.0)
}

/// The words that may follow an IPC command line: with no target yet,
/// `call` and the target names; after a target, its function names; after
/// a function, the name of the argument at that position, in brackets. A
/// leading `call` is skipped.
pub open spec fn completions(
    table: Seq<(Seq<char>, Seq<(Seq<char>, Seq<Seq<char>>)>)>,
    args: Seq<Seq<char>>,
) -> Seq<Seq<char>> {
    let a = if args.len() > 0 && args[0] == "call"@ {
        args.drop_first()
    } else {
        args
    };
    if a.len() == 0 {
        seq!["call"@] + keys_of(table)
    } else if a.len() == 1 {
        keys_of(functions_of(table, a[0]))
    } else {
        let fa = args_of(table, a[0], a[1]);
        if fa.len() >= a.len() {
            seq!["["@ + fa[a.len() - 1] + "]"@]
        } else {
            Seq::empty()
        }
    }
}

fn names_of_targets(ts: &Vec<IpcTarget>) -> (r: Vec<String>)
    ensures
        strs(r@) == keys_of(ts@.map_values(|t: IpcTarget| target_view(t))),
{
    let mut out: Vec<String> = Vec::new();
    let mut i: usize = 0;
    while i < ts.len()
        invariant
            0 <= i <= ts.len(),
            strs(out@) == keys_of(ts@.map_values(|t: IpcTarget| target_view(t))).subrange(0, i as int),
        decreases ts.len() - i,
    {
        let ghost before = out@;
        out.push(ts[i].name.clone());
        proof {
            assert(strs(out@) =~= strs(before).push(ts@[i as int].name@));
        }
        i = i + 1;
        assert(strs(out@) =~= keys_of(ts@.map_values(|t: IpcTarget| target_view(t))).subrange(0, i as int));
    }
    assert(keys_of(ts@.map_values(|t: IpcTarget| target_view(t))).subrange(0, ts@.len() as int)
        =~= keys_of(ts@.map_values(|t: IpcTarget| target_view(t))));
    out
}

fn names_of_functions(fs: &Vec<IpcFunction>) -> (r: Vec<String>)
    ensures
        strs(r@) == keys_of(functions_view(fs@)),
{
    let mut out: Vec<String> = Vec::new();
    let mut i: usize = 0;
    while i < fs.len()
        invariant
            0 <= i <= fs.len(),
            strs(out@) == keys_of(functions_view(fs@)).subrange(0, i as int),
        decreases fs.len() - i,
    {
        let ghost before = out@;
        out.push(fs[i].name.clone());
        proof {
            assert(strs(out@) =~= strs(before).push(fs@[i as int].name@));
        }
        i = i + 1;
        assert(strs(out@) =~= keys_of(functions_view(fs@)).subrange(0, i as int));
    }
    assert(keys_of(functions_view(fs@)).subrange(0, fs@.len() as int) =~= keys_of(functions_view(fs@)));
    out
}

/// Completions for an IPC command line, from the output of `qs ipc show`.
pub fn get_shell_ipc_completions(args: &[String], show_output: &str) -> (r: Vec<String>)
    ensures
        strs(r@) == completions(ipc_table(show_output@), strs(args@)),
{
    let table = parse_targets_from_ipc_show_output(show_output);
    let ghost sargs = strs(args@);
    let skip: usize = if args.len() > 0 && crate::text::same_text(args[0].as_str(), "call") {
        1
    } else {
        0
    };
    let ghost a = if sargs.len() > 0 && sargs[0] == "call"@ {
        sargs.drop_first()
    } else {
        sargs
    };
    proof {
        if args@.len() > 0 {
            assert(sargs[0] == args@[0]@);
        }
        assert(a.len() == args@.len() - skip);
        assert forall|k: int| 0 <= k < a.len() implies #[trigger] a[k] == args@[k + skip]@ by {}
    }
    let n = args.len() - skip;
    if n == 0 {
        let mut out: Vec<String> = Vec::new();
        out.push(string_of(chars_of("call").as_slice()));
        let names = names_of_targets(&table.targets);
        let ghost before = out@;
        let mut names = names;
        out.append(&mut names);
        proof {
            assert(strs(out@) =~= seq!["call"@] + keys_of(table@));
        }
        return out;
    }
    let t = chars_of(args[skip].as_str());
    let ti = find_target(&table.targets, t.as_slice());
    proof {
        lemma_key_index(table@, t@);
    }
    if n == 1 {
        if ti < table.targets.len() {
            let r = names_of_functions(&table.targets[ti].functions);
            return r;
        } else {
            proof {
                assert(keys_of(Seq::<(Seq<char>, Seq<Seq<char>>)>::empty()) =~= Seq::empty());
            }
            return Vec::new();
        }
    }
    if ti >= table.targets.len() {
        return Vec::new();
    }
    let fs = &table.targets[ti].functions;
    let f = chars_of(args[skip + 1].as_str());
    let fi = find_function(fs, f.as_slice());
    proof {
        lemma_key_index(functions_view(fs@), f@);
    }
    if fi >= fs.len() {
        return Vec::new();
    }
    let fa = &fs[fi].args;
    if fa.len() >= n {
        let mut v = chars_of("[");
        append_chars(&mut v, chars_of(fa[n - 1].as_str()).as_slice());
        append_chars(&mut v, chars_of("]").as_slice());
        let mut out: Vec<String> = Vec::new();
        out.push(string_of(v.as_slice()));
        proof {
            assert(strs(out@) =~= seq![v@]);
        }
        out
    } else {
        Vec::new()
    }
}

// ── Launch decisions ────────────────────────────────────────────────────────

/// The exit code to report for a child: its own code, else 128 plus the
/// signal that ended it, else 1.
pub fn process_exit_code(code: Option<i32>, signal: Option<i32>) -> (r: i32)
    requires
        code is None && signal is Some ==> signal->0 <= i32::MAX - 128,
    ensures
        r == match code {
            Some(c) => c as int,
            None => match signal {
                Some(s) => 128 + s,
                None => 1,
            },
        },
{
    match code {
        Some(c) => c,
        None => match signal {
            Some(s) => 128 + s,
            None => 1,
        },
    }
}

pub open spec fn pid_file_name_text(pid: u32) -> Seq<char> {
    "crawlunix-"@ + crate::text::decimal(pid as nat) + ".pid"@
}

/// The name of the file in which the shell launched by process `pid`
/// records its child: `crawlunix-PID.pid`.
pub fn pid_file_name(pid: u32) -> (s: String)
    ensures
        s@ == pid_file_name_text(pid),
{
    let mut v = chars_of("crawlunix-");
    append_chars(&mut v, crate::text::u64_to_decimal(pid as u64).as_slice());
    append_chars(&mut v, chars_of(".pid").as_slice());
    string_of(v.as_slice())
}

/// A file name of the form `crawlunix-*.pid`.
pub fn is_pid_file_name(name: &str) -> (b: bool)
    ensures
        b == (starts_with(name@, "crawlunix-"@) && ends_with(name@, ".pid"@)),
{
    let cs = chars_of(name);
    has_prefix(cs.as_slice(), chars_of("crawlunix-").as_slice()) && has_suffix(
        cs.as_slice(),
        chars_of(".pid").as_slice(),
    )
}

/// The process id a pid file holds (its text, trimmed, as an `i32`).
pub fn parse_pid(data: &str) -> (r: Option<i32>)
    ensures
        r == parse_i32_spec(trim(data@)),
{
    let t = trim_chars(chars_of(data).as_slice());
    parse_i32(t.as_slice())
}

/// `s` with every trailing copy of `p` removed (`str::trim_end_matches`).
pub open spec fn strip_suffix_all(s: Seq<char>, p: Seq<char>) -> Seq<char>
    decreases s.len(),
{
    if p.len() > 0 && ends_with(s, p) {
        strip_suffix_all(s.subrange(0, s.len() - p.len()), p)
    } else {
        s
    }
}

fn strip_suffix_all_chars(s: &[char], p: &[char]) -> (r: Vec<char>)
    ensures
        r@ == strip_suffix_all(s@, p@),
{
    if p.len() == 0 {
        assert(s@.subrange(0, s@.len() as int) =~= s@);
        return slice_to_vec(s, 0, s.len());
    }
    let mut end: usize = s.len();
    assert(s@.subrange(0, s@.len() as int) =~= s@);
    loop
        invariant
            0 <= end <= s.len(),
            p.len() > 0,
            strip_suffix_all(s@.subrange(0, end as int), p@) == strip_suffix_all(s@, p@),
        decreases end,
    {
        let cur = slice_to_vec(s, 0, end);
        if has_suffix(cur.as_slice(), p) {
            proof {
                assert(cur@.subrange(0, cur@.len() - p@.len()) =~= s@.subrange(0, end - p@.len()));
            }
            end = end - p.len();
        } else {
            return cur;
        }
    }
}

/// The launcher's process id that a pid file's name carries.
pub fn parent_pid_of(name: &str) -> (r: Option<i32>)
    ensures
        r == parse_i32_spec(strip_suffix_all(strip_prefix_all(name@, "crawlunix-"@), ".pid"@)),
{
    let a = strip_prefix_all_chars(chars_of(name).as_slice(), chars_of("crawlunix-").as_slice());
    let b = strip_suffix_all_chars(a.as_slice(), chars_of(".pid").as_slice());
    parse_i32(b.as_slice())
}

// ── The shell's environment and command lines ───────────────────────────────

/// What `build_qs_env` needs to know of the process environment.
#[derive(Debug, Clone)]
pub struct QsEnvironment {
    /// `QT_LOGGING_RULES` is set.
    pub qt_logging_rules_set: bool,
    /// The session is managed and `systemd-run` is on the path.
    pub launch_prefix_available: bool,
    /// `CRAWLDS_DISABLE_HOT_RELOAD` is set.
    pub hot_reload_setting_set: bool,
    /// `HOME`, when set.
    pub home: Option<String>,
    /// `QT_QPA_PLATFORMTHEME` is set.
    pub platform_theme_set: bool,
    /// `QT_QPA_PLATFORMTHEME_QT6` is set.
    pub platform_theme_qt6_set: bool,
    /// `QT_QPA_PLATFORM` is set.
    pub platform_set: bool,
}

pub open spec fn pair_view(p: (String, String)) -> (Seq<char>, Seq<char>) {
    (p.0@, p.1@)
}

pub open spec fn opt_pair(b: bool, k: Seq<char>, v: Seq<char>) -> Seq<(Seq<char>, Seq<char>)> {
    if b {
        seq![(k, v)]
    } else {
        Seq::empty()
    }
}

/// The variables set for the shell process: its socket and application id
/// always; the others only where the environment does not set them already
/// (hot reload is disabled for a configuration outside `HOME`).
pub open spec fn qs_env_spec(socket_path: Seq<char>, config_path: Seq<char>, env: QsEnvironment) -> Seq<
    (Seq<char>, Seq<char>),
> {
    seq![("CRAWLDS_SOCKET"@, socket_path)] + opt_pair(
        !env.qt_logging_rules_set,
        "QT_LOGGING_RULES"@,
        "*=false\nqt.quickshell.ipc.debug=true"@,
    ) + seq![("QS_APP_ID"@, "com.crawlunix.crawlds"@)] + opt_pair(
        env.launch_prefix_available,
        "CRAWLDS_DEFAULT_LAUNCH_PREFIX"@,
        "systemd-run --user --scope"@,
    ) + opt_pair(
        !env.hot_reload_setting_set && env.home is Some && !starts_with(config_path, env.home->0@),
        "CRAWLDS_DISABLE_HOT_RELOAD"@,
        "1"@,
    ) + opt_pair(!env.platform_theme_set, "QT_QPA_PLATFORMTHEME"@, "gtk3"@) + opt_pair(
        !env.platform_theme_qt6_set,
        "QT_QPA_PLATFORMTHEME_QT6"@,
        "gtk3"@,
    ) + opt_pair(!env.platform_set, "QT_QPA_PLATFORM"@, "wayland;xcb"@)
}

fn push_pair(v: &mut Vec<(String, String)>, b: bool, k: &str, val: &str)
    ensures
        final(v)@.map_values(|p: (String, String)| pair_view(p)) == old(v)@.map_values(
            |p: (String, String)| pair_view(p),
        ) + opt_pair(b, k@, val@),
{
    let ghost before = v@;
    if b {
        v.push((string_of(chars_of(k).as_slice()), string_of(chars_of(val).as_slice())));
        assert(v@.map_values(|p: (String, String)| pair_view(p)) =~= before.map_values(
            |p: (String, String)| pair_view(p),
        ) + opt_pair(b, k@, val@));
    } else {
        assert(v@.map_values(|p: (String, String)| pair_view(p)) =~= before.map_values(
            |p: (String, String)| pair_view(p),
        ) + opt_pair(b, k@, val@));
    }
}

/// The extra environment of the shell process.
pub fn build_qs_env(socket_path: &str, config_path: &str, env: &QsEnvironment) -> (r: Vec<(String, String)>)
    ensures
        r@.map_values(|p: (String, String)| pair_view(p)) == qs_env_spec(socket_path@, config_path@, *env),
{
    let mut extra: Vec<(String, String)> = Vec::new();
    push_pair(&mut extra, true, "CRAWLDS_SOCKET", socket_path);
    push_pair(&mut extra, !env.qt_logging_rules_set, "QT_LOGGING_RULES", "*=false\nqt.quickshell.ipc.debug=true");
    push_pair(&mut extra, true, "QS_APP_ID", "com.crawlunix.crawlds");
    push_pair(&mut extra, env.launch_prefix_available, "CRAWLDS_DEFAULT_LAUNCH_PREFIX", "systemd-run --user --scope");
    let outside_home = match &env.home {
        Some(h) => !has_prefix(chars_of(config_path).as_slice(), chars_of(h.as_str()).as_slice()),
        None => false,
    };
    push_pair(&mut extra, !env.hot_reload_setting_set && outside_home, "CRAWLDS_DISABLE_HOT_RELOAD", "1");
    push_pair(&mut extra, !env.platform_theme_set, "QT_QPA_PLATFORMTHEME", "gtk3");
    push_pair(&mut extra, !env.platform_theme_qt6_set, "QT_QPA_PLATFORMTHEME_QT6", "gtk3");
    push_pair(&mut extra, !env.platform_set, "QT_QPA_PLATFORM", "wayland;xcb");
    proof {
        assert(Seq::<(String, String)>::empty().map_values(|p: (String, String)| pair_view(p)) =~= Seq::empty());
        assert(opt_pair(true, "CRAWLDS_SOCKET"@, socket_path@) =~= seq![("CRAWLDS_SOCKET"@, socket_path@)]);
        assert(opt_pair(true, "QS_APP_ID"@, "com.crawlunix.crawlds"@) =~= seq![("QS_APP_ID"@, "com.crawlunix.crawlds"@)]);
        assert(Seq::<(Seq<char>, Seq<char>)>::empty() + seq![("CRAWLDS_SOCKET"@, socket_path@)] =~= seq![("CRAWLDS_SOCKET"@, socket_path@)]);
    }
    extra
}

/// The version that `pacman -Qi crawlds` reports: the text after the colon
/// of the first `Version` line, trimmed. A `Version` line without a colon
/// ends the search with nothing; an empty value is passed over.
pub open spec fn version_in(ls: Seq<Seq<char>>) -> Option<Seq<char>>
    decreases ls.len(),
{
    if ls.len() == 0 {
        None
    } else if starts_with(ls[0], "Version"@) {
        let rest = ls[0].subrange(7, ls[0].len() as int);
        let c = first_index_of(rest, ':');
        if c >= rest.len() {
            None
        } else {
            let v = trim(rest.subrange(c + 1, rest.len() as int));
            if v.len() > 0 {
                Some(v)
            } else {
                version_in(ls.drop_first())
            }
        }
    } else {
        version_in(ls.drop_first())
    }
}

/// The installed version, from the exit status and standard output of
/// `pacman -Qi crawlds`.
pub fn get_installed_version(success: bool, stdout: &[u8]) -> (r: Option<String>)
    ensures
        match r {
            Some(v) => success && version_in(lines(crate::text::utf8_lossy(stdout@))) == Some(v@),
            None => !success || version_in(lines(crate::text::utf8_lossy(stdout@))) is None,
        },
{
    if !success {
        return None;
    }
    let text = crate::text::from_utf8_lossy(stdout);
    let ls = lines_of(chars_of(text.as_str()).as_slice());
    let kw = chars_of("Version");
    let ghost all = seqs_of(ls@);
    proof {
        reveal_strlit("Version");
        assert(all.subrange(0, ls@.len() as int) =~= all);
    }
    let mut i: usize = 0;
    while i < ls.len()
        invariant
            0 <= i <= ls.len(),
            success,
            text@ == crate::text::utf8_lossy(stdout@),
            all == seqs_of(ls@),
            all == lines(text@),
            kw@ == "Version"@,
            kw@.len() == 7,
            version_in(all.subrange(i as int, all.len() as int)) == version_in(lines(text@)),
        decreases ls.len() - i,
    {
        let ghost rest_lines = all.subrange(i as int, all.len() as int);
        proof {
            assert(rest_lines[0] == ls@[i as int]@);
            assert(rest_lines.drop_first() =~= all.subrange(i + 1, all.len() as int));
        }
        let line = &ls[i];
        if has_prefix(line.as_slice(), kw.as_slice()) {
            let rest = slice_to_vec(line.as_slice(), 7, line.len());
            let c = find_char(rest.as_slice(), ':');
            if c >= rest.len() {
                return None;
            }
            let value = slice_to_vec(rest.as_slice(), c + 1, rest.len());
            let v = trim_chars(value.as_slice());
            if v.len() > 0 {
                return Some(string_of(v.as_slice()));
            }
        }
        i = i + 1;
    }
    proof {
        assert(all.subrange(i as int, all.len() as int) =~= Seq::<Seq<char>>::empty());
    }
    None
}

pub open spec fn call_args(args: Seq<Seq<char>>) -> Seq<Seq<char>> {
    if args[0] != "call"@ {
        seq!["call"@] + args
    } else {
        args
    }
}

/// The arguments of `qs` for an IPC call: to the running shell by its pid
/// when one is known, else to the configuration (on any display when `qs`
/// supports it); then the call, with `call` added when it is missing.
pub open spec fn ipc_command_args(
    args: Seq<Seq<char>>,
    pid: Option<i32>,
    any_display: bool,
    config_path: Seq<char>,
) -> Seq<Seq<char>> {
    let target = match pid {
        Some(p) => seq!["--pid"@, crate::text::signed_decimal(p as int)],
        None => (if any_display {
            seq!["--any-display"@]
        } else {
            Seq::empty()
        }) + seq!["-p"@, config_path],
    };
    seq!["ipc"@] + target + call_args(args)
}

fn push_text(v: &mut Vec<String>, s: &str)
    ensures
        strs(final(v)@) == strs(old(v)@).push(s@),
{
    let ghost before = v@;
    v.push(string_of(chars_of(s).as_slice()));
    assert(strs(v@) =~= strs(before).push(s@));
}

/// The `qs` arguments for an IPC call (`args` is not empty: without
/// arguments the command prints its help instead).
pub fn ipc_call_args(args: &[String], pid: Option<i32>, any_display: bool, config_path: &str) -> (r: Vec<String>)
    requires
        args.len() > 0,
    ensures
        strs(r@) == ipc_command_args(strs(args@), pid, any_display, config_path@),
{
    let mut out: Vec<String> = Vec::new();
    push_text(&mut out, "ipc");
    match pid {
        Some(p) => {
            push_text(&mut out, "--pid");
            let d = crate::text::i64_to_decimal(p as i64);
            let ghost before = out@;
            out.push(string_of(d.as_slice()));
            assert(strs(out@) =~= strs(before).push(d@));
        },
        None => {
            if any_display {
                push_text(&mut out, "--any-display");
            }
            push_text(&mut out, "-p");
            push_text(&mut out, config_path);
        },
    }
    let ghost head = strs(out@);
    let is_call = crate::text::same_text(args[0].as_str(), "call");
    if !is_call {
        push_text(&mut out, "call");
    }
    let ghost mid = strs(out@);
    let mut i: usize = 0;
    while i < args.len()
        invariant
            0 <= i <= args.len(),
            strs(out@) == mid + strs(args@).subrange(0, i as int),
        decreases args.len() - i,
    {
        let ghost before = out@;
        out.push(args[i].clone());
        proof {
            assert(strs(out@) =~= strs(before).push(args@[i as int]@));
            assert(strs(out@) =~= mid + strs(args@).subrange(0, i + 1));
        }
        i = i + 1;
    }
    proof {
        assert(strs(args@).subrange(0, args@.len() as int) =~= strs(args@));
        assert(strs(args@)[0] == args@[0]@);
        if !is_call {
            assert(strs(out@) =~= seq!["ipc"@] + (head.subrange(1, head.len() as int)) + (seq!["call"@] + strs(args@)));
        } else {
            assert(strs(out@) =~= seq!["ipc"@] + (head.subrange(1, head.len() as int)) + strs(args@));
        }
        match pid {
            Some(p) => {
                assert(head.subrange(1, head.len() as int) =~= seq!["--pid"@, crate::text::signed_decimal(p as int)]);
            },
            None => {
                assert(head.subrange(1, head.len() as int) =~= (if any_display {
                    seq!["--any-display"@]
                } else {
                    Seq::<Seq<char>>::empty()
                }) + seq!["-p"@, config_path@]);
            },
        }
    }
    out
}

/// The `qs` arguments that list the IPC targets.
pub fn show_command_args(any_display: bool, config_path: &str) -> (r: Vec<String>)
    ensures
        strs(r@) == seq!["ipc"@] + (if any_display {
            seq!["--any-display"@]
        } else {
            Seq::<Seq<char>>::empty()
        }) + seq!["-p"@, config_path@, "show"@],
{
    let mut out: Vec<String> = Vec::new();
    push_text(&mut out, "ipc");
    if any_display {
        push_text(&mut out, "--any-display");
    }
    push_text(&mut out, "-p");
    push_text(&mut out, config_path);
    push_text(&mut out, "show");
    proof {
        assert(strs(out@) =~= seq!["ipc"@] + (if any_display {
            seq!["--any-display"@]
        } else {
            Seq::<Seq<char>>::empty()
        }) + seq!["-p"@, config_path@, "show"@]);
    }
    out
}

/// The shell configuration directory: `CRAWLDS_CONFIG_PATH` when set, else
/// under `HOME`, else empty.
pub fn config_path_from(config_var: Option<&str>, home: Option<&str>) -> (s: String)
    ensures
        s@ == match config_var {
            Some(c) => c@,
            None => match home {
                Some(h) => h@ + "/.config/quickshell/crawldesktopshell"@,
                None => Seq::empty(),
            },
        },
{
    match config_var {
        Some(c) => string_of(chars_of(c).as_slice()),
        None => match home {
            Some(h) => crate::text::concat_strs(h, "/.config/quickshell/crawldesktopshell"),
            None => String::new(),
        },
    }
}

/// The daemon's socket: `CRAWLDS_SOCKET` when set, else `crawlds.sock` in
/// the runtime directory.
pub fn socket_path_from(socket_var: Option<&str>, runtime_dir: &str) -> (s: String)
    ensures
        s@ == match socket_var {
            Some(v) => v@,
            None => crate::text::joined(runtime_dir@, "crawlds.sock"@),
        },
{
    match socket_var {
        Some(v) => string_of(chars_of(v).as_slice()),
        None => crate::text::join_path(runtime_dir, "crawlds.sock"),
    }
}

// ── Uniqueness of names ─────────────────────────────────────────────────────

pub open spec fn distinct_keys<V>(s: Seq<(Seq<char>, V)>) -> bool {
    forall|i: int, j: int| 0 <= i < j < s.len() ==> s[i].0 != s[j].0
}

proof fn lemma_ensure_key_distinct<V>(s: Seq<(Seq<char>, V)>, k: Seq<char>, d: V)
    requires
        distinct_keys(s),
    ensures
        distinct_keys(ensure_key(s, k, d)),
{
    lemma_key_index(s, k);
    if key_index(s, k) == s.len() {
        let t = s.push((k, d));
        assert forall|i: int, j: int| 0 <= i < j < t.len() implies t[i].0 != t[j].0 by {
            if j < s.len() {
                assert(t[i] == s[i] && t[j] == s[j]);
            } else {
                assert(t[i] == s[i]);
            }
        }
    }
}

proof fn lemma_upsert_distinct<V>(s: Seq<(Seq<char>, V)>, k: Seq<char>, v: V)
    requires
        distinct_keys(s),
    ensures
        distinct_keys(upsert(s, k, v)),
{
    lemma_key_index(s, k);
    let i = key_index(s, k);
    if i < s.len() {
        let t = s.update(i, (k, v));
        assert forall|a: int, b: int| 0 <= a < b < t.len() implies t[a].0 != t[b].0 by {
            assert(s[a].0 != s[b].0);
        }
    } else {
        let t = s.push((k, v));
        assert forall|a: int, b: int| 0 <= a < b < t.len() implies t[a].0 != t[b].0 by {
            if b < s.len() {
                assert(t[a] == s[a] && t[b] == s[b]);
            } else {
                assert(t[a] == s[a]);
            }
        }
    }
}

proof fn lemma_parse_distinct(ls: Seq<Seq<char>>)
    ensures
        distinct_keys(parse_lines(ls).0),
        forall|i: int| 0 <= i < parse_lines(ls).0.len() ==> distinct_keys(#[trigger] parse_lines(ls).0[i].1),
    decreases ls.len(),
{
    if ls.len() > 0 {
        lemma_parse_distinct(ls.drop_last());
        let st = parse_lines(ls.drop_last());
        let line = ls.last();
        let ts = st.0;
        let cur = st.1;
        if starts_with(line, "target "@) {
            let name = trim(line.subrange(7, line.len() as int));
            lemma_ensure_key_distinct(ts, name, Seq::<(Seq<char>, Seq<Seq<char>>)>::empty());
            lemma_key_index(ts, name);
            let r = ensure_key(ts, name, Seq::<(Seq<char>, Seq<Seq<char>>)>::empty());
            assert forall|i: int| 0 <= i < r.len() implies distinct_keys(#[trigger] r[i].1) by {
                if i < ts.len() {
                    assert(r[i] == ts[i]);
                }
            }
        } else if starts_with(line, "  function"@) && cur.len() > 0 {
            let entry = function_entry(line);
            let ts1 = ensure_key(ts, cur, Seq::<(Seq<char>, Seq<Seq<char>>)>::empty());
            lemma_ensure_key_distinct(ts, cur, Seq::<(Seq<char>, Seq<Seq<char>>)>::empty());
            lemma_ensure_key_index(ts, cur, Seq::<(Seq<char>, Seq<Seq<char>>)>::empty());
            lemma_key_index(ts, cur);
            let k = key_index(ts1, cur);
            assert forall|i: int| 0 <= i < ts1.len() implies distinct_keys(#[trigger] ts1[i].1) by {
                if i < ts.len() {
                    assert(ts1[i] == ts[i]);
                }
            }
            lemma_upsert_distinct(ts1[k].1, entry.0, entry.1);
            let r = ts1.update(k, (cur, upsert(ts1[k].1, entry.0, entry.1)));
            assert forall|a: int, b: int| 0 <= a < b < r.len() implies r[a].0 != r[b].0 by {
                assert(ts1[a].0 != ts1[b].0);
            }
            assert forall|i: int| 0 <= i < r.len() implies distinct_keys(#[trigger] r[i].1) by {
                if i != k {
                    assert(r[i] == ts1[i]);
                }
            }
        }
    }
}

/// No name is listed twice: the output of `qs ipc show` yields each target
/// once, and each function once within its target (a later listing of a
/// function replaces the earlier one).
pub proof fn ipc_names_are_unique(output: Seq<char>)
    ensures
        distinct_keys(ipc_table(output)),
        forall|i: int| 0 <= i < ipc_table(output).len() ==> distinct_keys(#[trigger] ipc_table(output)[i].1),
{
    lemma_parse_distinct(lines(output));
}


// ── Restarting, killing and signals ─────────────────────────────────────────

/// `x` occurs in `s`.
pub open spec fn has_pid(s: Seq<i32>, x: i32) -> bool {
    exists|j: int| 0 <= j < s.len() && s[j] == x
}

/// The processes to signal among the pids found: each once, in the order
/// found, leaving out this process itself.
pub fn signal_targets(pids: &[i32], current: i32) -> (r: Vec<i32>)
    ensures
        forall|x: i32| has_pid(r@, x) <==> (has_pid(pids@, x) && x != current),
        forall|a: int, b: int| 0 <= a < b < r@.len() ==> #[trigger] r@[a] != #[trigger] r@[b],
{
    let mut out: Vec<i32> = Vec::new();
    let mut i: usize = 0;
    while i < pids.len()
        invariant
            0 <= i <= pids@.len(),
            forall|x: i32| has_pid(out@, x) <==> (has_pid(pids@.subrange(0, i as int), x) && x != current),
            forall|a: int, b: int| 0 <= a < b < out@.len() ==> #[trigger] out@[a] != #[trigger] out@[b],
        decreases pids@.len() - i,
    {
        let p = pids[i];
        let mut seen = false;
        let mut j: usize = 0;
        while j < out.len()
            invariant
                0 <= j <= out@.len(),
                seen == has_pid(out@.subrange(0, j as int), p),
            decreases out@.len() - j,
        {
            proof {
                let s0 = out@.subrange(0, j as int);
                let s1 = out@.subrange(0, j + 1);
                assert(s1 =~= s0.push(out@[j as int]));
                if has_pid(s1, p) {
                    let w = choose|w: int| 0 <= w < s1.len() && s1[w] == p;
                    if w < j {
                        assert(s0[w] == p);
                    }
                }
                if has_pid(s0, p) {
                    let w = choose|w: int| 0 <= w < s0.len() && s0[w] == p;
                    assert(s1[w] == p);
                }
                if out@[j as int] == p {
                    assert(s1[j as int] == p);
                }
            }
            if out[j] == p {
                seen = true;
            }
            j = j + 1;
        }
        proof {
            assert(out@.subrange(0, out@.len() as int) =~= out@);
        }
        let ghost o0 = out@;
        let ghost pre = pids@.subrange(0, i as int);
        let ghost post = pids@.subrange(0, i + 1);
        proof {
            assert(post =~= pre.push(p));
            assert(seen == has_pid(o0, p));
        }
        let pushed = !seen && p != current;
        if pushed {
            out.push(p);
        }
        proof {
            assert forall|x: i32| has_pid(out@, x) <==> (has_pid(post, x) && x != current) by {
                assert(has_pid(o0, x) <==> (has_pid(pre, x) && x != current));
                assert(has_pid(post, x) <==> (has_pid(pre, x) || x == p)) by {
                    if has_pid(post, x) {
                        let w = choose|w: int| 0 <= w < post.len() && post[w] == x;
                        if w < pre.len() {
                            assert(pre[w] == x);
                        }
                    }
                    if has_pid(pre, x) {
                        let w = choose|w: int| 0 <= w < pre.len() && pre[w] == x;
                        assert(post[w] == x);
                    }
                    if x == p {
                        assert(post[i as int] == x);
                    }
                }
                if pushed {
                    assert(out@ == o0.push(p));
                    assert(has_pid(out@, x) <==> (has_pid(o0, x) || x == p)) by {
                        if has_pid(out@, x) {
                            let w = choose|w: int| 0 <= w < out@.len() && out@[w] == x;
                            if w < o0.len() {
                                assert(o0[w] == x);
                            }
                        }
                        if has_pid(o0, x) {
                            let w = choose|w: int| 0 <= w < o0.len() && o0[w] == x;
                            assert(out@[w] == x);
                        }
                        if x == p {
                            assert(out@[o0.len() as int] == x);
                        }
                    }
                } else {
                    assert(out@ == o0);
                    assert(has_pid(o0, p) <==> (has_pid(pre, p) && p != current));
                }
            }
            assert forall|a: int, b: int| 0 <= a < b < out@.len() implies #[trigger] out@[a] != #[trigger] out@[b] by {
                if b == o0.len() && out@.len() > o0.len() {
                    assert(out@[a] == o0[a]);
                    if o0[a] == p {
                        assert(has_pid(o0, p));
                    }
                }
            }
        }
        i = i + 1;
    }
    proof {
        assert(pids@.subrange(0, pids@.len() as int) =~= pids@);
    }
    out
}

/// A signal the running shell's launcher handles.
#[derive(Debug, Clone, Copy, PartialEq, Eq, Structural)]
pub enum ShellSignal {
    Usr1,
    Int,
    Term,
}

/// What the launcher does on a signal.
#[derive(Debug, Clone, Copy, PartialEq, Eq, Structural)]
pub enum SignalAction {
    /// Stop the shell and exit with failure, for systemd to restart it.
    ExitForRestart,
    /// Start a detached restart of the shell, then exit.
    DetachedRestart,
    /// Stop the shell and exit.
    ShutDown,
}

/// `SIGUSR1` restarts: through systemd when the session manages the shell,
/// else by a detached restart; `SIGINT` and `SIGTERM` shut down.
pub fn signal_action(sig: ShellSignal, session_managed: bool) -> (a: SignalAction)
    ensures
        a == match sig {
            ShellSignal::Usr1 => if session_managed {
                SignalAction::ExitForRestart
            } else {
                SignalAction::DetachedRestart
            },
            _ => SignalAction::ShutDown,
        },
{
    match sig {
        ShellSignal::Usr1 => if session_managed {
            SignalAction::ExitForRestart
        } else {
            SignalAction::DetachedRestart
        },
        _ => SignalAction::ShutDown,
    }
}

/// The arguments of `qs` for a configuration: `-p PATH` and the rest given.
pub fn qs_run_args(config_path: &str, extra: &[String]) -> (r: Vec<String>)
    ensures
        strs(r@) == seq!["-p"@, config_path@] + strs(extra@),
{
    let mut out: Vec<String> = Vec::new();
    out.push(string_of(chars_of("-p").as_slice()));
    out.push(string_of(chars_of(config_path).as_slice()));
    let mut i: usize = 0;
    while i < extra.len()
        invariant
            0 <= i <= extra@.len(),
            strs(out@) == seq!["-p"@, config_path@] + strs(extra@.subrange(0, i as int)),
        decreases extra@.len() - i,
    {
        let ghost o0 = out@;
        out.push(extra[i].clone());
        proof {
            assert(extra@.subrange(0, i + 1) =~= extra@.subrange(0, i as int).push(extra@[i as int]));
            assert(strs(out@) =~= strs(o0).push(extra@[i as int]@));
            assert(strs(extra@.subrange(0, i + 1)) =~= strs(extra@.subrange(0, i as int)).push(
                extra@[i as int]@,
            ));
            assert(strs(out@) =~= seq!["-p"@, config_path@] + strs(extra@.subrange(0, i + 1)));
        }
        i = i + 1;
    }
    proof {
        assert(extra@.subrange(0, extra@.len() as int) =~= extra@);
    }
    out
}

/// The process was started as the daemon's child (`--daemon-child` among its arguments).
pub fn is_daemon_child(args: &[String]) -> (b: bool)
    ensures
        b == exists|i: int| 0 <= i < args@.len() && args@[i]@ == "--daemon-child"@,
{
    let flag = chars_of("--daemon-child");
    let mut i: usize = 0;
    while i < args.len()
        invariant
            0 <= i <= args@.len(),
            flag@ == "--daemon-child"@,
            forall|k: int| 0 <= k < i ==> args@[k]@ != "--daemon-child"@,
        decreases args@.len() - i,
    {
        let a = chars_of(args[i].as_str());
        if a.len() == flag.len() && has_prefix(a.as_slice(), flag.as_slice()) {
            proof {
                assert(a@.subrange(0, flag@.len() as int) =~= a@);
            }
            return true;
        }
        proof {
            if args@[i as int]@ == "--daemon-child"@ {
                assert(a@.subrange(0, flag@.len() as int) =~= a@);
            }
        }
        i = i + 1;
    }
    false
}

} // verus!
