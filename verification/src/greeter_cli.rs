//! The decisions of the `greeter` command: which compositor, greeter user
//! and backup to use, whether the user confirmed, and which links the
//! greeter cache holds.
use vstd::prelude::*;
use crate::shell::strs;
use crate::text_order::{lemma_text_lt_total, lemma_text_lt_transitive, text_less, text_lt};
use crate::text::{
    chars_of, concat_strs, contains, contains_seq, has_prefix, lines, lines_of, lowercase, parse_u32,
    parse_u32_spec, same_text, seqs_of, starts_with, string_of, to_lowercase, trim, trim_chars,
};

verus! {

/// Where greetd keeps its configuration.
pub const GREETD_CONFIG_PATH: &'static str = "/etc/greetd/config.toml";

/// The greeter's cache directory when none is given.
pub const DEFAULT_CACHE_DIR: &'static str = "/var/cache/crawlds-greeter";

/// The compositors the greeter supports, in the order they are looked for.
pub open spec fn compositor_names() -> Seq<Seq<char>> {
    seq!["niri"@, "hyprland"@, "sway"@, "labwc"@, "mango"@, "miracle-wm"@, "scroll"@]
}

/// The supported compositors, in the order they are looked for.
pub fn supported_compositors() -> (v: Vec<String>)
    ensures
        strs(v@) == compositor_names(),
{
    let mut v: Vec<String> = Vec::new();
    v.push(string_of(chars_of("niri").as_slice()));
    v.push(string_of(chars_of("hyprland").as_slice()));
    v.push(string_of(chars_of("sway").as_slice()));
    v.push(string_of(chars_of("labwc").as_slice()));
    v.push(string_of(chars_of("mango").as_slice()));
    v.push(string_of(chars_of("miracle-wm").as_slice()));
    v.push(string_of(chars_of("scroll").as_slice()));
    assert(strs(v@) =~= compositor_names());
    v
}

/// What choosing a compositor comes to.
#[derive(Debug, Clone)]
pub enum CompositorChoice {
    Chosen(String),
    /// No supported compositor is installed.
    NoneFound,
    /// Several are installed: the user picks one.
    Ask,
}

/// The compositor to use: the one named on the command line (lower-cased),
/// else the only installed one, or the first when no question may be asked.
pub fn resolve_compositor(override_name: Option<&str>, found: &[String], non_interactive: bool) -> (c:
    CompositorChoice)
    ensures
        match override_name {
            Some(n) => c matches CompositorChoice::Chosen(s) && s@ == lowercase(n@),
            None => if found@.len() == 0 {
                c is NoneFound
            } else if found@.len() == 1 || non_interactive {
                c matches CompositorChoice::Chosen(s) && s == found@[0]
            } else {
                c is Ask
            },
        },
{
    match override_name {
        Some(n) => CompositorChoice::Chosen(to_lowercase(n)),
        None => {
            if found.len() == 0 {
                CompositorChoice::NoneFound
            } else if found.len() == 1 || non_interactive {
                CompositorChoice::Chosen(found[0].clone())
            } else {
                CompositorChoice::Ask
            }
        },
    }
}

/// The compositor picked by the user's answer, a number from 1 on; `None`
/// for any other answer.
pub fn pick_compositor(found: &[String], input: &str) -> (r: Option<String>)
    requires
        found@.len() <= u32::MAX,
    ensures
        ({
            let choice: int = match parse_u32_spec(trim(input@)) {
                Some(v) => v as int,
                None => 0,
            };
            match r {
                Some(s) => 1 <= choice <= found@.len() && s == found@[choice - 1],
                None => choice == 0 || choice > found@.len(),
            }
        }),
{
    let t = trim_chars(chars_of(input).as_slice());
    let choice: u32 = match parse_u32(t.as_slice()) {
        Some(v) => v,
        None => 0,
    };
    if choice == 0 || choice as usize > found.len() {
        None
    } else {
        Some(found[(choice - 1) as usize].clone())
    }
}

/// An answer other than `n` or `no` (in any case, around white space) confirms.
pub fn confirmed(input: &str) -> (b: bool)
    ensures
        b == (lowercase(trim(input@)) != "n"@ && lowercase(trim(input@)) != "no"@),
{
    let t = string_of(trim_chars(chars_of(input).as_slice()).as_slice());
    let response = to_lowercase(t.as_str());
    !same_text(response.as_str(), "n") && !same_text(response.as_str(), "no")
}

/// A line of `/etc/passwd` or `/etc/group` for this account.
pub open spec fn names_account(ls: Seq<Seq<char>>, name: Seq<char>) -> bool {
    exists|i: int| 0 <= i < ls.len() && starts_with(#[trigger] ls[i], name + ":"@)
}

/// The first greeter account name that the file lists, `greeter` if none.
pub open spec fn greeter_account(data: Seq<char>) -> Seq<char> {
    let ls = lines(data);
    if names_account(ls, "greeter"@) {
        "greeter"@
    } else if names_account(ls, "greetd"@) {
        "greetd"@
    } else if names_account(ls, "_greeter"@) {
        "_greeter"@
    } else {
        "greeter"@
    }
}

fn lists_account(ls: &Vec<Vec<char>>, name: &str) -> (b: bool)
    ensures
        b == names_account(seqs_of(ls@), name@),
{
    let prefix = chars_of(concat_strs(name, ":").as_str());
    let mut i: usize = 0;
    while i < ls.len()
        invariant
            0 <= i <= ls.len(),
            prefix@ == name@ + ":"@,
            forall|k: int| 0 <= k < i ==> !starts_with(#[trigger] seqs_of(ls@)[k], name@ + ":"@),
        decreases ls.len() - i,
    {
        proof {
            assert(seqs_of(ls@)[i as int] == ls@[i as int]@);
        }
        if has_prefix(ls[i].as_slice(), prefix.as_slice()) {
            assert(starts_with(seqs_of(ls@)[i as int], name@ + ":"@));
            return true;
        }
        i = i + 1;
    }
    false
}

/// The greeter account that `/etc/passwd` (or `/etc/group`) names.
pub fn detect_greeter_account(data: &str) -> (s: String)
    ensures
        s@ == greeter_account(data@),
{
    let ls = lines_of(chars_of(data).as_slice());
    proof {
        reveal_strlit("greeter");
        reveal_strlit("greetd");
        reveal_strlit("_greeter");
    }
    let lit = if lists_account(&ls, "greeter") {
        "greeter"
    } else if lists_account(&ls, "greetd") {
        "greetd"
    } else if lists_account(&ls, "_greeter") {
        "_greeter"
    } else {
        "greeter"
    };
    string_of(chars_of(lit).as_slice())
}

/// A configured greetd command that runs this greeter.
pub fn greeter_enabled(command: &str) -> (b: bool)
    ensures
        b == contains(command@, "crawlds-greeter"@),
{
    contains_seq(chars_of(command).as_slice(), chars_of("crawlds-greeter").as_slice())
}

/// The first backup (in the order given, newest first) that does not run
/// this greeter, if any.
pub fn restorable_backup(contents: &[String]) -> (r: Option<usize>)
    ensures
        match r {
            Some(i) => i < contents@.len() && !contains(contents@[i as int]@, "crawlds-greeter"@)
                && forall|k: int| 0 <= k < i ==> contains(#[trigger] contents@[k]@, "crawlds-greeter"@),
            None => forall|k: int| 0 <= k < contents@.len() ==> contains(#[trigger] contents@[k]@, "crawlds-greeter"@),
        },
{
    let mut i: usize = 0;
    while i < contents.len()
        invariant
            0 <= i <= contents.len(),
            forall|k: int| 0 <= k < i ==> contains(#[trigger] contents@[k]@, "crawlds-greeter"@),
        decreases contents.len() - i,
    {
        if !greeter_enabled(contents[i].as_str()) {
            return Some(i);
        }
        i = i + 1;
    }
    None
}

/// A backup of the greetd configuration, by its file name.
pub fn is_backup_name(name: &str) -> (b: bool)
    ensures
        b == starts_with(name@, "config.toml.backup-"@),
{
    has_prefix(chars_of(name).as_slice(), chars_of("config.toml.backup-").as_slice())
}

/// The configuration written when no backup can be restored.
pub fn fallback_greetd_config() -> (s: String)
    ensures
        s@ == "[terminal]\nvt = 1\n\n[default_session]\nuser = \"greeter\"\ncommand = \"agreety --cmd /bin/bash\"\n"@,
{
    string_of(chars_of("[terminal]\nvt = 1\n\n[default_session]\nuser = \"greeter\"\ncommand = \"agreety --cmd /bin/bash\"\n").as_slice())
}

/// The configuration assumed when greetd has none yet.
pub fn initial_greetd_config() -> (s: String)
    ensures
        s@ == "[terminal]\nvt = 1\n\n[default_session]\n"@,
{
    string_of(chars_of("[terminal]\nvt = 1\n\n[default_session]\n").as_slice())
}

/// The links from the greeter cache to the user's files, as (source,
/// link) pairs: settings, session state and colours.
pub fn cache_links(home: &str, cache_dir: &str) -> (v: Vec<(String, String)>)
    ensures
        v@.len() == 3,
        v@[0].0@ == home@ + "/.config/crawlds/settings.json"@,
        v@[0].1@ == cache_dir@ + "/settings.json"@,
        v@[1].0@ == home@ + "/.local/state/crawlds/session.json"@,
        v@[1].1@ == cache_dir@ + "/session.json"@,
        v@[2].0@ == home@ + "/.cache/crawlds/crawlds-colors.json"@,
        v@[2].1@ == cache_dir@ + "/colors.json"@,
{
    let mut v: Vec<(String, String)> = Vec::new();
    v.push(
        (concat_strs(home, "/.config/crawlds/settings.json"), concat_strs(cache_dir, "/settings.json")),
    );
    v.push(
        (
            concat_strs(home, "/.local/state/crawlds/session.json"),
            concat_strs(cache_dir, "/session.json"),
        ),
    );
    v.push(
        (
            concat_strs(home, "/.cache/crawlds/crawlds-colors.json"),
            concat_strs(cache_dir, "/colors.json"),
        ),
    );
    v
}


/// Backup `a` comes before backup `b`: the later name first (names sort by
/// code point, as the file names do), equal names in the order given.
pub open spec fn backup_before(names: Seq<String>, a: int, b: int) -> bool {
    text_lt(names[b]@, names[a]@) || (names[a]@ == names[b]@ && a < b)
}

/// Index `k` occurs in `order`.
pub open spec fn lists(order: Seq<usize>, k: int) -> bool {
    exists|j: int| 0 <= j < order.len() && order[j] == k
}

/// The backups among the file names of `/etc/greetd`, as indices, newest
/// (largest name) first: each backup name occurs once, nothing else does.
pub fn newest_backups_first(names: &[String]) -> (r: Vec<usize>)
    ensures
        forall|i: int|
            0 <= i < r@.len() ==> #[trigger] r@[i] < names@.len() && starts_with(
                names@[r@[i] as int]@,
                "config.toml.backup-"@,
            ),
        forall|k: int|
            0 <= k < names@.len() && starts_with(names@[k]@, "config.toml.backup-"@) ==> lists(r@, k),
        forall|i: int, j: int|
            0 <= i < j < r@.len() ==> backup_before(names@, #[trigger] r@[i] as int, #[trigger] r@[j] as int),
{
    let ghost ns = names@;
    let mut order: Vec<usize> = Vec::new();
    let mut i: usize = 0;
    while i < names.len()
        invariant
            0 <= i <= names@.len(),
            ns == names@,
            forall|j: int|
                0 <= j < order@.len() ==> #[trigger] order@[j] < i && starts_with(
                    ns[order@[j] as int]@,
                    "config.toml.backup-"@,
                ),
            forall|k: int| 0 <= k < i && starts_with(ns[k]@, "config.toml.backup-"@) ==> lists(order@, k),
            forall|a: int, b: int|
                0 <= a < b < order@.len() ==> backup_before(ns, #[trigger] order@[a] as int, #[trigger] order@[b] as int),
        decreases names@.len() - i,
    {
        if is_backup_name(names[i].as_str()) {
            let cur = chars_of(names[i].as_str());
            let mut p: usize = 0;
            while p < order.len() && !text_less(chars_of(names[order[p]].as_str()).as_slice(), cur.as_slice())
                invariant
                    0 <= p <= order@.len(),
                    i < names@.len(),
                    ns == names@,
                    cur@ == ns[i as int]@,
                    forall|j: int| 0 <= j < order@.len() ==> #[trigger] order@[j] < i,
                    forall|j: int| 0 <= j < p ==> !text_lt(ns[#[trigger] order@[j] as int]@, ns[i as int]@),
                decreases order@.len() - p,
            {
                p = p + 1;
            }
            let ghost old_order = order@;
            proof {
                assert forall|j: int| p <= j < old_order.len() implies text_lt(
                    ns[#[trigger] old_order[j] as int]@,
                    ns[i as int]@,
                ) by {
                    if j > p {
                        assert(backup_before(ns, old_order[p as int] as int, old_order[j] as int));
                        if text_lt(ns[old_order[j] as int]@, ns[old_order[p as int] as int]@) {
                            lemma_text_lt_transitive(
                                ns[old_order[j] as int]@,
                                ns[old_order[p as int] as int]@,
                                ns[i as int]@,
                            );
                        }
                    }
                }
            }
            order.insert(p, i);
            proof {
                let no = order@;
                assert(no == old_order.insert(p as int, i));
                assert forall|j: int| 0 <= j < no.len() implies #[trigger] no[j] < i + 1 && starts_with(
                    ns[no[j] as int]@,
                    "config.toml.backup-"@,
                ) by {
                    if j < p {
                        assert(no[j] == old_order[j]);
                    } else if j > p {
                        assert(no[j] == old_order[j - 1]);
                    }
                }
                assert forall|k: int| 0 <= k < i + 1 && starts_with(ns[k]@, "config.toml.backup-"@) implies lists(no, k) by {
                    if k == i {
                        assert(no[p as int] == i);
                    } else {
                        assert(lists(old_order, k));
                        let j = choose|j: int| 0 <= j < old_order.len() && old_order[j] == k;
                        if j < p {
                            assert(no[j] == k);
                        } else {
                            assert(no[j + 1] == k);
                        }
                    }
                }
                assert forall|a: int, b: int| 0 <= a < b < no.len() implies backup_before(
                    ns,
                    #[trigger] no[a] as int,
                    #[trigger] no[b] as int,
                ) by {
                    if b < p {
                        assert(no[a] == old_order[a] && no[b] == old_order[b]);
                        assert(backup_before(ns, old_order[a] as int, old_order[b] as int));
                    } else if b == p {
                        assert(no[a] == old_order[a]);
                        let x = old_order[a] as int;
                        assert(x < i);
                        assert(!text_lt(ns[x]@, ns[i as int]@));
                        if ns[x]@ != ns[i as int]@ {
                            lemma_text_lt_total(ns[x]@, ns[i as int]@);
                        }
                    } else if a < p {
                        assert(no[a] == old_order[a] && no[b] == old_order[b - 1]);
                        assert(backup_before(ns, old_order[a] as int, old_order[b - 1] as int));
                    } else if a == p {
                        assert(no[b] == old_order[b - 1]);
                        assert(text_lt(ns[old_order[b - 1] as int]@, ns[i as int]@));
                    } else {
                        assert(no[a] == old_order[a - 1] && no[b] == old_order[b - 1]);
                        assert(backup_before(ns, old_order[a - 1] as int, old_order[b - 1] as int));
                    }
                }
            }
        } else {
            proof {
                assert forall|k: int| 0 <= k < i + 1 && starts_with(ns[k]@, "config.toml.backup-"@) implies lists(order@, k) by {
                    if k < i {
                    }
                }
            }
        }
        i = i + 1;
    }
    order
}

} // verus!
