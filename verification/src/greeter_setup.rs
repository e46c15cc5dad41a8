//! Editing and reading the greetd configuration (`/etc/greetd/config.toml`)
//! for the greeter setup commands of the CLI.
use vstd::prelude::*;
use crate::text::{
    append_chars, chars_of, find_char, first_index_of, has_prefix, is_ws, join, join_with,
    lemma_first_index_of, lemma_first_index_of_unique, lemma_lines_no_newline, lemma_lines_of_join,
    lemma_trim_end_prefix, lemma_trim_end_unique, lemma_trim_start_unique, lines, lines_of,
    no_newline, seqs_of, slice_to_vec, starts_with, string_of, trim, trim_char, trim_char_end,
    trim_char_start, trim_chars, trim_end, trim_matches_char, trim_start, words, words_of,
};

verus! {

// ── Specifications ──────────────────────────────────────────────────────────

/// A line with surrounding white space and any `#` comment removed.
pub open spec fn strip_comment(line: Seq<char>) -> Seq<char> {
    let t = trim(line);
    let i = first_index_of(t, '#');
    if i < t.len() {
        trim(t.subrange(0, i))
    } else {
        t
    }
}

/// The name of the TOML section a line opens, if it opens one.
pub open spec fn section_of(line: Seq<char>) -> Option<Seq<char>> {
    let t = strip_comment(line);
    if t.len() > 2 && t[0] == '[' && t.last() == ']' {
        Some(trim(t.subrange(1, t.len() - 1)))
    } else {
        None
    }
}

pub open spec fn is_default_section(name: Seq<char>) -> bool {
    name == "default_session"@
}

/// The value of the first `command` key of a `[default_session]` section,
/// with surrounding white space and double quotes removed.
pub open spec fn read_command(ls: Seq<Seq<char>>, in_default: bool) -> Seq<char>
    decreases ls.len(),
{
    if ls.len() == 0 {
        Seq::empty()
    } else {
        let line = ls[0];
        match section_of(line) {
            Some(name) => read_command(ls.drop_first(), is_default_section(name)),
            None => {
                let t = strip_comment(line);
                let eq = first_index_of(t, '=');
                if in_default && starts_with(t, "command"@) && eq < t.len() {
                    trim_char(trim(t.subrange(eq + 1, t.len() as int)), '"')
                } else {
                    read_command(ls.drop_first(), in_default)
                }
            },
        }
    }
}

/// The `--cache-dir` argument among the words of a command line.
pub open spec fn cache_dir_in(words: Seq<Seq<char>>) -> Option<Seq<char>>
    decreases words.len(),
{
    if words.len() == 0 {
        None
    } else if words[0] == "--cache-dir"@ {
        if words.len() > 1 {
            Some(trim_char(words[1], '"'))
        } else {
            None
        }
    } else if starts_with(words[0], "--cache-dir="@) {
        Some(trim_char(words[0].subrange("--cache-dir="@.len() as int, words[0].len() as int), '"'))
    } else {
        cache_dir_in(words.drop_first())
    }
}

pub open spec fn user_line(user: Seq<char>) -> Seq<char> {
    "user = \""@ + user + "\""@
}

pub open spec fn command_line(command: Seq<char>) -> Seq<char> {
    "command = \""@ + command + "\""@
}

/// Where the rewrite of the configuration stands after some lines.
pub struct UpsertState {
    pub in_default: bool,
    pub found: bool,
    pub user_set: bool,
    pub cmd_set: bool,
}

pub open spec fn upsert_start() -> UpsertState {
    UpsertState { in_default: false, found: false, user_set: false, cmd_set: false }
}

/// The `user` and `command` lines still owed when a `[default_session]` section ends.
pub open spec fn owed_lines(st: UpsertState, user: Seq<char>, command: Seq<char>) -> Seq<Seq<char>> {
    if st.in_default {
        (if !st.user_set {
            seq![user_line(user)]
        } else {
            Seq::empty()
        }) + (if !st.cmd_set {
            seq![command_line(command)]
        } else {
            Seq::empty()
        })
    } else {
        Seq::empty()
    }
}

pub open spec fn is_user_key(t: Seq<char>) -> bool {
    starts_with(t, "user ="@) || starts_with(t, "user="@)
}

pub open spec fn is_command_key(t: Seq<char>) -> bool {
    starts_with(t, "command ="@) || starts_with(t, "command="@)
}

/// The lines of the configuration after `user` and `command` were set in
/// every `[default_session]` section, and such a section added when none exists.
pub open spec fn upsert_lines(
    ls: Seq<Seq<char>>,
    st: UpsertState,
    user: Seq<char>,
    command: Seq<char>,
) -> Seq<Seq<char>>
    decreases ls.len(),
{
    if ls.len() == 0 {
        owed_lines(st, user, command) + if !st.found {
            seq![
                Seq::<char>::empty(),
                "[default_session]"@,
                user_line(user),
                command_line(command),
            ]
        } else {
            Seq::empty()
        }
    } else {
        let line = ls[0];
        let rest = ls.drop_first();
        match section_of(line) {
            Some(name) => {
                let d = is_default_section(name);
                let next = UpsertState {
                    in_default: d,
                    found: st.found || d,
                    user_set: if d {
                        false
                    } else {
                        st.user_set
                    },
                    cmd_set: if d {
                        false
                    } else {
                        st.cmd_set
                    },
                };
                owed_lines(st, user, command) + seq![line] + upsert_lines(rest, next, user, command)
            },
            None => {
                let t = strip_comment(line);
                if st.in_default && is_user_key(t) {
                    seq![user_line(user)] + upsert_lines(
                        rest,
                        UpsertState { user_set: true, ..st },
                        user,
                        command,
                    )
                } else if st.in_default && is_command_key(t) {
                    seq![command_line(command)] + upsert_lines(
                        rest,
                        UpsertState { cmd_set: true, ..st },
                        user,
                        command,
                    )
                } else {
                    seq![line] + upsert_lines(rest, st, user, command)
                }
            },
        }
    }
}

/// The greeter command line written into the configuration.
pub open spec fn greeter_command(
    wrapper: Seq<char>,
    compositor: Seq<char>,
    cache_dir: Seq<char>,
    path: Option<Seq<char>>,
) -> Seq<char> {
    let base = wrapper + " --command "@ + compositor + " --cache-dir "@ + cache_dir;
    match path {
        Some(p) => base + " -p "@ + p,
        None => base,
    }
}

// ── Executable functions ────────────────────────────────────────────────────

fn strip_comment_chars(line: &[char]) -> (v: Vec<char>)
    ensures
        v@ == strip_comment(line@),
{
    let t = trim_chars(line);
    let i = find_char(t.as_slice(), '#');
    if i < t.len() {
        let head = slice_to_vec(t.as_slice(), 0, i);
        trim_chars(head.as_slice())
    } else {
        t
    }
}

fn section_chars(line: &[char]) -> (r: Option<Vec<char>>)
    ensures
        match r {
            Some(v) => section_of(line@) == Some(v@),
            None => section_of(line@) is None,
        },
{
    let t = strip_comment_chars(line);
    if t.len() > 2 && t[0] == '[' && t[t.len() - 1] == ']' {
        let inner = slice_to_vec(t.as_slice(), 1, t.len() - 1);
        Some(trim_chars(inner.as_slice()))
    } else {
        None
    }
}

/// A line with surrounding white space and any `#` comment removed.
pub fn strip_toml_comment(line: &str) -> (s: String)
    ensures
        s@ == strip_comment(line@),
{
    let cs = chars_of(line);
    let v = strip_comment_chars(cs.as_slice());
    string_of(v.as_slice())
}

/// The name of the section a line such as `[default_session]` opens.
pub fn parse_toml_section(line: &str) -> (r: Option<String>)
    ensures
        match r {
            Some(s) => section_of(line@) == Some(s@),
            None => section_of(line@) is None,
        },
{
    let cs = chars_of(line);
    match section_chars(cs.as_slice()) {
        Some(v) => Some(string_of(v.as_slice())),
        None => None,
    }
}

/// The `command` of the `[default_session]` section of a greetd
/// configuration, or the empty string when there is none.
pub fn read_default_session_command(content: &str) -> (s: String)
    ensures
        s@ == read_command(lines(content@), false),
{
    let cs = chars_of(content);
    let ls = lines_of(cs.as_slice());
    let key = chars_of("command");
    let mut in_default = false;
    let mut i: usize = 0;
    assert(seqs_of(ls@).subrange(0, ls@.len() as int) =~= seqs_of(ls@));
    while i < ls.len()
        invariant
            0 <= i <= ls.len(),
            seqs_of(ls@) == lines(content@),
            key@ == "command"@,
            read_command(seqs_of(ls@).subrange(i as int, ls@.len() as int), in_default)
                == read_command(lines(content@), false),
        decreases ls.len() - i,
    {
        let ghost rest = seqs_of(ls@).subrange(i as int, ls@.len() as int);
        proof {
            assert(rest[0] == ls@[i as int]@);
            assert(rest.drop_first() =~= seqs_of(ls@).subrange(i + 1, ls@.len() as int));
        }
        let line = &ls[i];
        match section_chars(line.as_slice()) {
            Some(name) => {
                let def = chars_of("default_session");
                in_default = name.len() == def.len() && has_prefix(name.as_slice(), def.as_slice());
                proof {
                    if in_default {
                        assert(name@.subrange(0, def@.len() as int) =~= name@);
                    }
                    if name@ == def@ {
                        assert(name@.subrange(0, def@.len() as int) =~= name@);
                    }
                }
            },
            None => {
                if in_default {
                    let t = strip_comment_chars(line.as_slice());
                    let eq = find_char(t.as_slice(), '=');
                    if has_prefix(t.as_slice(), key.as_slice()) && eq < t.len() {
                        let value = slice_to_vec(t.as_slice(), eq + 1, t.len());
                        let trimmed = trim_chars(value.as_slice());
                        let v = trim_matches_char(trimmed.as_slice(), '"');
                        return string_of(v.as_slice());
                    }
                }
            },
        }
        i = i + 1;
    }
    proof {
        assert(seqs_of(ls@).subrange(i as int, ls@.len() as int) =~= Seq::<Seq<char>>::empty());
    }
    String::new()
}

/// The value of a `--cache-dir DIR` or `--cache-dir=DIR` argument of a
/// command line, with double quotes removed.
pub fn extract_cache_dir_from_command(command: &str) -> (r: Option<String>)
    ensures
        match r {
            Some(s) => cache_dir_in(words(command@)) == Some(s@),
            None => cache_dir_in(words(command@)) is None,
        },
{
    let cs = chars_of(command);
    let tokens = words_of(cs.as_slice());
    let flag = chars_of("--cache-dir");
    let flag_eq = chars_of("--cache-dir=");
    let mut i: usize = 0;
    assert(seqs_of(tokens@).subrange(0, tokens@.len() as int) =~= seqs_of(tokens@));
    while i < tokens.len()
        invariant
            0 <= i <= tokens.len(),
            seqs_of(tokens@) == words(command@),
            flag@ == "--cache-dir"@,
            flag_eq@ == "--cache-dir="@,
            cache_dir_in(seqs_of(tokens@).subrange(i as int, tokens@.len() as int)) == cache_dir_in(
                words(command@),
            ),
        decreases tokens.len() - i,
    {
        let ghost rest = seqs_of(tokens@).subrange(i as int, tokens@.len() as int);
        proof {
            assert(rest[0] == tokens@[i as int]@);
            assert(rest.drop_first() =~= seqs_of(tokens@).subrange(i + 1, tokens@.len() as int));
        }
        let token = &tokens[i];
        let is_flag = token.len() == flag.len() && has_prefix(token.as_slice(), flag.as_slice());
        proof {
            assert(is_flag ==> token@.subrange(0, flag@.len() as int) =~= token@);
            if token@ == flag@ {
                assert(token@.subrange(0, flag@.len() as int) =~= token@);
            }
        }
        if is_flag {
            if i + 1 < tokens.len() {
                proof {
                    assert(rest[1] == tokens@[i + 1]@);
                }
                let v = trim_matches_char(tokens[i + 1].as_slice(), '"');
                return Some(string_of(v.as_slice()));
            }
            return None;
        }
        if has_prefix(token.as_slice(), flag_eq.as_slice()) {
            let tail = slice_to_vec(token.as_slice(), flag_eq.len(), token.len());
            let v = trim_matches_char(tail.as_slice(), '"');
            return Some(string_of(v.as_slice()));
        }
        i = i + 1;
    }
    proof {
        assert(seqs_of(tokens@).subrange(i as int, tokens@.len() as int) =~= Seq::<
            Seq<char>,
        >::empty());
    }
    None
}

/// The greetd command line that starts the greeter wrapper.
pub fn build_greeter_command(
    wrapper: &str,
    compositor: &str,
    cache_dir: &str,
    path: Option<&str>,
) -> (s: String)
    ensures
        s@ == greeter_command(
            wrapper@,
            compositor@,
            cache_dir@,
            match path {
                Some(p) => Some(p@),
                None => None,
            },
        ),
{
    let mut out = chars_of(wrapper);
    append_chars(&mut out, chars_of(" --command ").as_slice());
    append_chars(&mut out, chars_of(compositor).as_slice());
    append_chars(&mut out, chars_of(" --cache-dir ").as_slice());
    append_chars(&mut out, chars_of(cache_dir).as_slice());
    match path {
        Some(p) => {
            append_chars(&mut out, chars_of(" -p ").as_slice());
            append_chars(&mut out, chars_of(p).as_slice());
        },
        None => {},
    }
    string_of(out.as_slice())
}

fn quoted_line(prefix: &[char], value: &[char]) -> (v: Vec<char>)
    ensures
        v@ == prefix@ + value@ + "\""@,
{
    let mut v = slice_to_vec(prefix, 0, prefix.len());
    append_chars(&mut v, value);
    append_chars(&mut v, chars_of("\"").as_slice());
    proof {
        assert(prefix@.subrange(0, prefix@.len() as int) =~= prefix@);
    }
    v
}

fn push_owed(
    out: &mut Vec<Vec<char>>,
    st: &UpsertState,
    user_l: &Vec<char>,
    cmd_l: &Vec<char>,
    Ghost(user): Ghost<Seq<char>>,
    Ghost(command): Ghost<Seq<char>>,
)
    requires
        user_l@ == user_line(user),
        cmd_l@ == command_line(command),
    ensures
        seqs_of(final(out)@) == seqs_of(old(out)@) + owed_lines(*st, user, command),
{
    let ghost o0 = seqs_of(out@);
    if st.in_default {
        if !st.user_set {
            out.push(clone_chars(user_l));
        }
        if !st.cmd_set {
            out.push(clone_chars(cmd_l));
        }
        proof {
            if !st.user_set && !st.cmd_set {
                assert(seqs_of(out@) =~= o0 + owed_lines(*st, user, command));
            } else if !st.user_set {
                assert(seqs_of(out@) =~= o0 + owed_lines(*st, user, command));
            } else if !st.cmd_set {
                assert(seqs_of(out@) =~= o0 + owed_lines(*st, user, command));
            } else {
                assert(seqs_of(out@) =~= o0 + owed_lines(*st, user, command));
            }
        }
    } else {
        assert(seqs_of(out@) =~= o0 + owed_lines(*st, user, command));
    }
}

fn clone_chars(v: &Vec<char>) -> (c: Vec<char>)
    ensures
        c@ == v@,
{
    let c = slice_to_vec(v.as_slice(), 0, v.len());
    assert(v@.subrange(0, v@.len() as int) =~= v@);
    c
}

/// The greetd configuration with `user` and `command` set in every
/// `[default_session]` section, or such a section appended when there is none.
pub fn upsert_default_session(content: &str, user: &str, command: &str) -> (s: String)
    ensures
        s@ == join(upsert_lines(lines(content@), upsert_start(), user@, command@), "\n"@),
{
    let cs = chars_of(content);
    let ls = lines_of(cs.as_slice());
    let user_l = quoted_line(chars_of("user = \"").as_slice(), chars_of(user).as_slice());
    let cmd_l = quoted_line(chars_of("command = \"").as_slice(), chars_of(command).as_slice());
    let user_a = chars_of("user =");
    let user_b = chars_of("user=");
    let cmd_a = chars_of("command =");
    let cmd_b = chars_of("command=");
    let def = chars_of("default_session");
    let ghost u = user@;
    let ghost c = command@;
    let ghost all = lines(content@);
    let mut st = UpsertState { in_default: false, found: false, user_set: false, cmd_set: false };
    let mut out: Vec<Vec<char>> = Vec::new();
    let mut i: usize = 0;
    proof {
        assert(seqs_of(ls@).subrange(0, ls@.len() as int) =~= all);
        assert(seqs_of(out@) + upsert_lines(all, st, u, c) =~= upsert_lines(all, upsert_start(), u, c));
    }
    while i < ls.len()
        invariant
            0 <= i <= ls.len(),
            seqs_of(ls@) == all,
            user_l@ == user_line(u),
            cmd_l@ == command_line(c),
            user_a@ == "user ="@,
            user_b@ == "user="@,
            cmd_a@ == "command ="@,
            cmd_b@ == "command="@,
            def@ == "default_session"@,
            seqs_of(out@) + upsert_lines(seqs_of(ls@).subrange(i as int, ls@.len() as int), st, u, c)
                == upsert_lines(all, upsert_start(), u, c),
        decreases ls.len() - i,
    {
        let ghost rest = seqs_of(ls@).subrange(i as int, ls@.len() as int);
        let ghost o0 = seqs_of(out@);
        let ghost st0 = st;
        proof {
            assert(rest[0] == ls@[i as int]@);
            assert(rest.drop_first() =~= seqs_of(ls@).subrange(i + 1, ls@.len() as int));
        }
        let line = &ls[i];
        match section_chars(line.as_slice()) {
            Some(name) => {
                let d = name.len() == def.len() && has_prefix(name.as_slice(), def.as_slice());
                proof {
                    if d {
                        assert(name@.subrange(0, def@.len() as int) =~= name@);
                    }
                    if name@ == def@ {
                        assert(name@.subrange(0, def@.len() as int) =~= name@);
                    }
                }
                push_owed(&mut out, &st, &user_l, &cmd_l, Ghost(u), Ghost(c));
                out.push(clone_chars(line));
                st = UpsertState {
                    in_default: d,
                    found: st.found || d,
                    user_set: if d {
                        false
                    } else {
                        st.user_set
                    },
                    cmd_set: if d {
                        false
                    } else {
                        st.cmd_set
                    },
                };
                proof {
                    let owed = owed_lines(st0, u, c);
                    assert(seqs_of(out@) =~= o0 + owed + seq![line@]);
                    assert(upsert_lines(rest, st0, u, c) == owed + seq![line@] + upsert_lines(
                        rest.drop_first(),
                        st,
                        u,
                        c,
                    ));
                    assert(o0 + (owed + seq![line@] + upsert_lines(rest.drop_first(), st, u, c))
                        =~= (o0 + owed + seq![line@]) + upsert_lines(rest.drop_first(), st, u, c));
                }
            },
            None => {
                let t = strip_comment_chars(line.as_slice());
                let is_user = has_prefix(t.as_slice(), user_a.as_slice()) || has_prefix(
                    t.as_slice(),
                    user_b.as_slice(),
                );
                let is_cmd = has_prefix(t.as_slice(), cmd_a.as_slice()) || has_prefix(
                    t.as_slice(),
                    cmd_b.as_slice(),
                );
                if st.in_default && is_user {
                    out.push(clone_chars(&user_l));
                    st = UpsertState { user_set: true, ..st };
                    proof {
                        assert(seqs_of(out@) =~= o0.push(user_line(u)));
                    }
                } else if st.in_default && is_cmd {
                    out.push(clone_chars(&cmd_l));
                    st = UpsertState { cmd_set: true, ..st };
                    proof {
                        assert(seqs_of(out@) =~= o0.push(command_line(c)));
                    }
                } else {
                    out.push(clone_chars(line));
                    proof {
                        assert(seqs_of(out@) =~= o0.push(line@));
                    }
                }
                proof {
                    let x = seqs_of(out@).last();
                    assert(upsert_lines(rest, st0, u, c) == seq![x] + upsert_lines(
                        rest.drop_first(),
                        st,
                        u,
                        c,
                    ));
                    assert(o0 + (seq![x] + upsert_lines(rest.drop_first(), st, u, c)) =~= o0.push(x)
                        + upsert_lines(rest.drop_first(), st, u, c));
                }
            },
        }
        i = i + 1;
    }
    let ghost o1 = seqs_of(out@);
    push_owed(&mut out, &st, &user_l, &cmd_l, Ghost(u), Ghost(c));
    let ghost o2 = seqs_of(out@);
    if !st.found {
        out.push(Vec::new());
        out.push(chars_of("[default_session]"));
        out.push(clone_chars(&user_l));
        out.push(clone_chars(&cmd_l));
    }
    proof {
        assert(seqs_of(ls@).subrange(i as int, ls@.len() as int) =~= Seq::<Seq<char>>::empty());
        let tail = if !st.found {
            seq![Seq::<char>::empty(), "[default_session]"@, user_line(u), command_line(c)]
        } else {
            Seq::<Seq<char>>::empty()
        };
        assert(seqs_of(out@) =~= o2 + tail);
        assert(o1 + (owed_lines(st, u, c) + tail) =~= o2 + tail);
    }
    let joined = join_with(&out, chars_of("\n").as_slice());
    string_of(joined.as_slice())
}

// ── Reading back what was written ───────────────────────────────────────────

/// A line of the first `[default_session]` section, before its first
/// `command =` line, that the reader takes for the command although the
/// rewrite does not (such as `commandline = x` or `command  = x`).
pub open spec fn stray_command(ls: Seq<Seq<char>>, in_default: bool) -> bool
    decreases ls.len(),
{
    if ls.len() == 0 {
        false
    } else {
        match section_of(ls[0]) {
            Some(name) => stray_command(ls.drop_first(), is_default_section(name)),
            None => {
                let t = strip_comment(ls[0]);
                if in_default && is_command_key(t) {
                    false
                } else if in_default && starts_with(t, "command"@) && first_index_of(t, '=')
                    < t.len() {
                    true
                } else {
                    stray_command(ls.drop_first(), in_default)
                }
            },
        }
    }
}

/// A command that survives being written between double quotes and read back.
pub open spec fn quotable_command(command: Seq<char>) -> bool {
    &&& no_newline(command)
    &&& forall|j: int| 0 <= j < command.len() ==> #[trigger] command[j] != '#'
    &&& command.len() > 0 ==> command[0] != '"' && command.last() != '"'
}

proof fn lemma_trim_fixed(s: Seq<char>)
    requires
        s.len() > 0,
        !is_ws(s[0]),
        !is_ws(s.last()),
    ensures
        trim(s) == s,
{
    lemma_trim_start_unique(s, 0);
    assert(s.subrange(0, s.len() as int) =~= s);
    lemma_trim_end_unique(s, s.len() as int);
}

/// A line that starts with neither white space nor `#` keeps its first
/// character when its comment is stripped.
proof fn lemma_strip_comment_head(l: Seq<char>)
    requires
        l.len() > 0,
        !is_ws(l[0]),
        l[0] != '#',
    ensures
        strip_comment(l).len() > 0,
        strip_comment(l)[0] == l[0],
{
    lemma_trim_start_unique(l, 0);
    assert(l.subrange(0, l.len() as int) =~= l);
    let t = trim(l);
    lemma_trim_end_prefix(l);
    if t.len() == 0 {
        assert(is_ws(l[0]));
    }
    assert(t[0] == l[0]);
    let i = first_index_of(t, '#');
    lemma_first_index_of(t, '#');
    if i < t.len() {
        assert(i != 0);
        let x = t.subrange(0, i);
        lemma_trim_start_unique(x, 0);
        assert(x.subrange(0, x.len() as int) =~= x);
        lemma_trim_end_prefix(x);
        if trim_end(x).len() == 0 {
            assert(is_ws(x[0]));
        }
        assert(trim_end(x)[0] == x[0]);
    }
}

proof fn lemma_empty_line()
    ensures
        section_of(Seq::<char>::empty()) is None,
        strip_comment(Seq::<char>::empty()) == Seq::<char>::empty(),
{
    let e = Seq::<char>::empty();
    assert(trim_start(e) == e);
    assert(trim_end(e) == e);
    assert(first_index_of(e, '#') == 0);
}

proof fn lemma_user_line(user: Seq<char>)
    ensures
        section_of(user_line(user)) is None,
        !starts_with(strip_comment(user_line(user)), "command"@),
{
    reveal_strlit("user = \"");
    reveal_strlit("\"");
    reveal_strlit("command");
    let l = user_line(user);
    assert(l[0] == 'u');
    lemma_strip_comment_head(l);
    let t = strip_comment(l);
    if starts_with(t, "command"@) {
        assert(t.subrange(0, 7)[0] == t[0]);
    }
}

proof fn lemma_section_line()
    ensures
        section_of("[default_session]"@) == Some("default_session"@),
{
    reveal_strlit("[default_session]");
    reveal_strlit("default_session");
    let l = "[default_session]"@;
    lemma_trim_fixed(l);
    assert forall|k: int| 0 <= k < l.len() implies #[trigger] l[k] != '#' by {}
    lemma_first_index_of_unique(l, '#', l.len() as int);
    let inner = l.subrange(1, l.len() - 1);
    assert(inner =~= "default_session"@);
    lemma_trim_fixed(inner);
}

/// The line `command = "..."` reads back as the command it was written with.
proof fn lemma_command_line(command: Seq<char>)
    requires
        quotable_command(command),
    ensures
        section_of(command_line(command)) is None,
        strip_comment(command_line(command)) == command_line(command),
        starts_with(command_line(command), "command"@),
        first_index_of(command_line(command), '=') < command_line(command).len(),
        ({
            let t = command_line(command);
            trim_char(trim(t.subrange(first_index_of(t, '=') + 1, t.len() as int)), '"')
                == command
        }),
{
    reveal_strlit("command = \"");
    reveal_strlit("\"");
    reveal_strlit("command");
    let l = command_line(command);
    let n = command.len();
    assert(l.len() == n + 12);
    assert(l[0] == 'c');
    assert(l.last() == '"');
    lemma_trim_fixed(l);
    assert forall|k: int| 0 <= k < l.len() implies #[trigger] l[k] != '#' by {
        if 11 <= k < 11 + n {
            assert(l[k] == command[k - 11]);
        }
    }
    lemma_first_index_of_unique(l, '#', l.len() as int);
    assert(l.subrange(0, 7) =~= "command"@);
    assert(l[8] == '=');
    assert forall|k: int| 0 <= k < 8 implies #[trigger] l[k] != '=' by {}
    lemma_first_index_of_unique(l, '=', 8);
    let v = l.subrange(9, l.len() as int);
    let q = "\""@ + command + "\""@;
    assert(v.drop_first() =~= q);
    assert(v[0] == ' ');
    assert(trim_start(v) == trim_start(q));
    assert(q[0] == '"');
    assert(trim_start(q) == q);
    assert(q.last() == '"');
    assert(trim_end(q) == q);
    let r = command + "\""@;
    assert(q.drop_first() =~= r);
    assert(trim_char_start(q, '"') == trim_char_start(r, '"'));
    if n == 0 {
        assert(r.drop_first() =~= Seq::<char>::empty());
        assert(trim_char_start(r, '"') == trim_char_start(Seq::<char>::empty(), '"'));
        assert(trim_char_start(Seq::<char>::empty(), '"') == Seq::<char>::empty());
        assert(trim_char_end(Seq::<char>::empty(), '"') == Seq::<char>::empty());
        assert(command =~= Seq::<char>::empty());
    } else {
        assert(r[0] == command[0]);
        assert(trim_char_start(r, '"') == r);
        assert(r.drop_last() =~= command);
        assert(trim_char_end(r, '"') == trim_char_end(command, '"'));
        assert(trim_char_end(command, '"') == command);
    }
}

/// Once the reader has seen every line it needs, trailing lines do not matter.
proof fn lemma_read_command_front(x: Seq<char>, rest: Seq<Seq<char>>, in_default: bool)
    ensures
        read_command(seq![x] + rest, in_default) == match section_of(x) {
            Some(name) => read_command(rest, is_default_section(name)),
            None => {
                let t = strip_comment(x);
                let eq = first_index_of(t, '=');
                if in_default && starts_with(t, "command"@) && eq < t.len() {
                    trim_char(trim(t.subrange(eq + 1, t.len() as int)), '"')
                } else {
                    read_command(rest, in_default)
                }
            },
        },
{
    let s = seq![x] + rest;
    assert(s[0] == x);
    assert(s.drop_first() =~= rest);
}

/// The reader sees a line only through its trimmed text.
proof fn lemma_read_command_trim_eq(a: Seq<Seq<char>>, b: Seq<Seq<char>>, in_default: bool)
    requires
        a.len() == b.len(),
        forall|j: int| 0 <= j < a.len() ==> trim(#[trigger] a[j]) == trim(b[j]),
    ensures
        read_command(a, in_default) == read_command(b, in_default),
    decreases a.len(),
{
    if a.len() > 0 {
        assert(trim(a[0]) == trim(b[0]));
        assert forall|j: int| 0 <= j < a.drop_first().len() implies trim(
            #[trigger] a.drop_first()[j],
        ) == trim(b.drop_first()[j]) by {
            assert(a.drop_first()[j] == a[j + 1]);
            assert(b.drop_first()[j] == b[j + 1]);
        }
        lemma_read_command_trim_eq(a.drop_first(), b.drop_first(), false);
        lemma_read_command_trim_eq(a.drop_first(), b.drop_first(), true);
    }
}

/// An empty last line changes nothing the reader finds.
proof fn lemma_read_command_push_empty(ls: Seq<Seq<char>>, in_default: bool)
    ensures
        read_command(ls.push(Seq::<char>::empty()), in_default) == read_command(ls, in_default),
    decreases ls.len(),
{
    let e = Seq::<char>::empty();
    lemma_empty_line();
    reveal_strlit("command");
    if ls.len() == 0 {
        assert(ls.push(e) =~= seq![e] + Seq::<Seq<char>>::empty());
        assert(!starts_with(e, "command"@));
        lemma_read_command_front(e, Seq::<Seq<char>>::empty(), in_default);
    } else {
        assert(ls.push(e) =~= seq![ls[0]] + ls.drop_first().push(e));
        assert(ls =~= seq![ls[0]] + ls.drop_first());
        lemma_read_command_front(ls[0], ls.drop_first().push(e), in_default);
        lemma_read_command_front(ls[0], ls.drop_first(), in_default);
        lemma_read_command_push_empty(ls.drop_first(), false);
        lemma_read_command_push_empty(ls.drop_first(), true);
    }
}

/// The reader finds the written command in the rewritten lines, from any
/// point of the rewrite at which it has not yet found a command.
proof fn lemma_upsert_reads_back(
    ls: Seq<Seq<char>>,
    st: UpsertState,
    user: Seq<char>,
    command: Seq<char>,
)
    requires
        quotable_command(command),
        st.found ==> st.in_default,
        st.in_default ==> st.found && !st.cmd_set,
        !stray_command(ls, st.in_default),
    ensures
        read_command(upsert_lines(ls, st, user, command), st.in_default) == command,
    decreases ls.len(),
{
    reveal_strlit("command");
    lemma_user_line(user);
    lemma_command_line(command);
    let ul = user_line(user);
    let cl = command_line(command);
    if ls.len() == 0 {
        if st.in_default {
            if !st.user_set {
                assert(upsert_lines(ls, st, user, command) =~= seq![ul] + seq![cl]);
                lemma_read_command_front(ul, seq![cl], true);
            } else {
                assert(upsert_lines(ls, st, user, command) =~= seq![cl]);
            }
            lemma_read_command_front(cl, Seq::empty(), true);
        } else {
            let e = Seq::<char>::empty();
            let h = "[default_session]"@;
            assert(upsert_lines(ls, st, user, command) =~= seq![e] + (seq![h] + (seq![ul] + seq![
                cl,
            ])));
            lemma_empty_line();
            lemma_section_line();
            lemma_read_command_front(e, seq![h] + (seq![ul] + seq![cl]), false);
            assert(!starts_with(e, "command"@));
            lemma_read_command_front(h, seq![ul] + seq![cl], false);
            lemma_read_command_front(ul, seq![cl], true);
            lemma_read_command_front(cl, Seq::empty(), true);
        }
    } else {
        let line = ls[0];
        let rest = ls.drop_first();
        match section_of(line) {
            Some(name) => {
                let d = is_default_section(name);
                let next = UpsertState {
                    in_default: d,
                    found: st.found || d,
                    user_set: if d {
                        false
                    } else {
                        st.user_set
                    },
                    cmd_set: if d {
                        false
                    } else {
                        st.cmd_set
                    },
                };
                let tail = upsert_lines(rest, next, user, command);
                if st.in_default {
                    if !st.user_set {
                        assert(upsert_lines(ls, st, user, command) =~= seq![ul] + (seq![cl] + (
                        seq![line] + tail)));
                        lemma_read_command_front(ul, seq![cl] + (seq![line] + tail), true);
                    } else {
                        assert(upsert_lines(ls, st, user, command) =~= seq![cl] + (seq![line]
                            + tail));
                    }
                    lemma_read_command_front(cl, seq![line] + tail, true);
                } else {
                    assert(upsert_lines(ls, st, user, command) =~= seq![line] + tail);
                    lemma_read_command_front(line, tail, false);
                    lemma_upsert_reads_back(rest, next, user, command);
                }
            },
            None => {
                let t = strip_comment(line);
                if st.in_default && is_user_key(t) {
                    let next = UpsertState { user_set: true, ..st };
                    let tail = upsert_lines(rest, next, user, command);
                    assert(upsert_lines(ls, st, user, command) =~= seq![ul] + tail);
                    lemma_read_command_front(ul, tail, true);
                    assert(t.len() > 0 && t[0] == 'u') by {
                        reveal_strlit("user =");
                        reveal_strlit("user=");
                        if starts_with(t, "user ="@) {
                            assert(t.subrange(0, 6)[0] == t[0]);
                        } else {
                            assert(t.subrange(0, 5)[0] == t[0]);
                        }
                    }
                    if starts_with(t, "command"@) {
                        assert(t.subrange(0, 7)[0] == t[0]);
                    }
                    assert(!is_command_key(t)) by {
                        reveal_strlit("command =");
                        reveal_strlit("command=");
                        if starts_with(t, "command ="@) {
                            assert(t.subrange(0, 9)[0] == t[0]);
                        }
                        if starts_with(t, "command="@) {
                            assert(t.subrange(0, 8)[0] == t[0]);
                        }
                    }
                    lemma_upsert_reads_back(rest, next, user, command);
                } else if st.in_default && is_command_key(t) {
                    let next = UpsertState { cmd_set: true, ..st };
                    let tail = upsert_lines(rest, next, user, command);
                    assert(upsert_lines(ls, st, user, command) =~= seq![cl] + tail);
                    lemma_read_command_front(cl, tail, true);
                } else {
                    let tail = upsert_lines(rest, st, user, command);
                    assert(upsert_lines(ls, st, user, command) =~= seq![line] + tail);
                    lemma_read_command_front(line, tail, st.in_default);
                    lemma_upsert_reads_back(rest, st, user, command);
                }
            },
        }
    }
}

/// The lines of the rewrite hold no line feed.
proof fn lemma_upsert_no_newline(
    ls: Seq<Seq<char>>,
    st: UpsertState,
    user: Seq<char>,
    command: Seq<char>,
)
    requires
        no_newline(user),
        no_newline(command),
        forall|j: int| 0 <= j < ls.len() ==> no_newline(#[trigger] ls[j]),
    ensures
        forall|j: int|
            0 <= j < upsert_lines(ls, st, user, command).len() ==> no_newline(
                #[trigger] upsert_lines(ls, st, user, command)[j],
            ),
    decreases ls.len(),
{
    reveal_strlit("user = \"");
    reveal_strlit("command = \"");
    reveal_strlit("\"");
    reveal_strlit("[default_session]");
    let ul = user_line(user);
    let cl = command_line(command);
    assert forall|k: int| 0 <= k < ul.len() implies #[trigger] ul[k] != '\n' by {
        if 8 <= k < 8 + user.len() {
            assert(ul[k] == user[k - 8]);
        }
    }
    assert forall|k: int| 0 <= k < cl.len() implies #[trigger] cl[k] != '\n' by {
        if 11 <= k < 11 + command.len() {
            assert(cl[k] == command[k - 11]);
        }
    }
    let h = "[default_session]"@;
    assert forall|k: int| 0 <= k < h.len() implies #[trigger] h[k] != '\n' by {}
    let owed = owed_lines(st, user, command);
    assert forall|j: int| 0 <= j < owed.len() implies no_newline(#[trigger] owed[j]) by {}
    let out = upsert_lines(ls, st, user, command);
    if ls.len() == 0 {
        let extra = if !st.found {
            seq![Seq::<char>::empty(), h, ul, cl]
        } else {
            Seq::<Seq<char>>::empty()
        };
        assert(out == owed + extra);
        assert forall|j: int| 0 <= j < out.len() implies no_newline(#[trigger] out[j]) by {
            if j >= owed.len() {
                assert(out[j] == extra[j - owed.len()]);
            } else {
                assert(out[j] == owed[j]);
            }
        }
    } else {
        let line = ls[0];
        let rest = ls.drop_first();
        assert(no_newline(ls[0]));
        assert forall|j: int| 0 <= j < rest.len() implies no_newline(#[trigger] rest[j]) by {
            assert(rest[j] == ls[j + 1]);
        }
        match section_of(line) {
            Some(name) => {
                let d = is_default_section(name);
                let next = UpsertState {
                    in_default: d,
                    found: st.found || d,
                    user_set: if d {
                        false
                    } else {
                        st.user_set
                    },
                    cmd_set: if d {
                        false
                    } else {
                        st.cmd_set
                    },
                };
                let tail = upsert_lines(rest, next, user, command);
                lemma_upsert_no_newline(rest, next, user, command);
                let head = owed + seq![line];
                assert(out == head + tail);
                assert forall|j: int| 0 <= j < out.len() implies no_newline(#[trigger] out[j]) by {
                    if j >= head.len() {
                        assert(out[j] == tail[j - head.len()]);
                    } else if j >= owed.len() {
                        assert(out[j] == line);
                    } else {
                        assert(out[j] == owed[j]);
                    }
                }
            },
            None => {
                let t = strip_comment(line);
                let next = if st.in_default && is_user_key(t) {
                    UpsertState { user_set: true, ..st }
                } else if st.in_default && is_command_key(t) {
                    UpsertState { cmd_set: true, ..st }
                } else {
                    st
                };
                let first = if st.in_default && is_user_key(t) {
                    ul
                } else if st.in_default && is_command_key(t) {
                    cl
                } else {
                    line
                };
                let tail = upsert_lines(rest, next, user, command);
                lemma_upsert_no_newline(rest, next, user, command);
                assert(out == seq![first] + tail);
                assert forall|j: int| 0 <= j < out.len() implies no_newline(#[trigger] out[j]) by {
                    if j >= 1 {
                        assert(out[j] == tail[j - 1]);
                    }
                }
            },
        }
    }
}

/// Law: whatever the configuration held, after `upsert_default_session` has
/// written a command, `read_default_session_command` reads that command
/// back — provided the command can be written between double quotes
/// (no line feed, no `#`, no double quote at either end), the user name holds
/// no line feed, and the first `[default_session]` section holds no line that
/// the reader takes for its command while the rewrite leaves it alone.
pub proof fn upserted_command_reads_back(content: Seq<char>, user: Seq<char>, command: Seq<char>)
    requires
        quotable_command(command),
        no_newline(user),
        !stray_command(lines(content), false),
    ensures
        read_command(
            lines(join(upsert_lines(lines(content), upsert_start(), user, command), "\n"@)),
            false,
        ) == command,
{
    let ls = lines(content);
    let out = upsert_lines(ls, upsert_start(), user, command);
    lemma_upsert_reads_back(ls, upsert_start(), user, command);
    lemma_lines_no_newline(content);
    lemma_upsert_no_newline(ls, upsert_start(), user, command);
    lemma_upsert_nonempty(ls, upsert_start(), user, command);
    lemma_lines_of_join(out);
    let back = lines(join(out, "\n"@));
    if out.last().len() == 0 {
        let front = out.drop_last();
        assert(front.push(out.last()) =~= out);
        assert(out.last() =~= Seq::<char>::empty());
        lemma_read_command_push_empty(front, false);
        assert forall|j: int| 0 <= j < back.len() implies trim(#[trigger] back[j]) == trim(
            front[j],
        ) by {
            assert(front[j] == out[j]);
        }
        lemma_read_command_trim_eq(back, front, false);
    } else {
        lemma_read_command_trim_eq(back, out, false);
    }
}

/// The rewrite always yields at least one line.
proof fn lemma_upsert_nonempty(
    ls: Seq<Seq<char>>,
    st: UpsertState,
    user: Seq<char>,
    command: Seq<char>,
)
    requires
        st.found ==> st.in_default,
        st.in_default ==> !st.cmd_set,
    ensures
        upsert_lines(ls, st, user, command).len() >= 1,
{
}

} // verus!
