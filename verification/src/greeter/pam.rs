//! PAM stack inspection: which modules a stack loads, whether it locks
//! accounts out after failed attempts and after how many, and the message
//! shown after a failed login.
use vstd::prelude::*;
use crate::greeter::types::{AuthFeedback, PamInfo};
use crate::text::{
    append_chars, chars_of, contains, contains_seq, find, find_char, find_pattern, first_index_of,
    has_prefix, i64_to_decimal, is_whitespace, is_ws, lines, lines_of, lowercase, parse_i32,
    parse_i32_spec, same_text, seqs_of, signed_decimal, slice_to_vec, starts_with, string_of, to_lowercase,
    trim, trim_chars,
};

verus! {

/// Why a PAM file could not be used.
#[derive(Debug, Clone)]
pub enum PamError {
    Io(String),
    Parse(String),
}

/// The text of one PAM service file and where it was read from.
#[derive(Debug, Clone)]
pub struct PamStack {
    pub content: String,
    pub path: String,
}

// ── Specifications ──────────────────────────────────────────────────────────

/// A line that is a comment once leading white space is removed.
pub open spec fn is_comment(line: Seq<char>) -> bool {
    starts_with(trim(line), "#"@)
}

/// Some line of the stack that is not a comment names the module.
pub open spec fn stack_has_module(content: Seq<char>, module: Seq<char>) -> bool {
    exists|i: int|
        0 <= i < lines(content).len() && !is_comment(#[trigger] lines(content)[i]) && contains(
            lines(content)[i],
            module,
        )
}

pub open spec fn stack_uses_lockout(content: Seq<char>) -> bool {
    ||| stack_has_module(content, "pam_faillock.so"@)
    ||| stack_has_module(content, "pam_tally2.so"@)
    ||| stack_has_module(content, "pam_tally.so"@)
}

/// A character that ends a `deny=` value.
pub open spec fn ends_value(c: char) -> bool {
    is_ws(c) || c == '#' || c == '\0'
}

/// Length of the leading run of characters that do not end a value.
pub open spec fn value_end(s: Seq<char>) -> int
    decreases s.len(),
{
    if s.len() == 0 || ends_value(s[0]) {
        0
    } else {
        1 + value_end(s.drop_first())
    }
}

/// The `deny=` value of a lockout module line: the text after the first `=`
/// that follows the first `deny`, up to white space, `#` or NUL, as an `i32`.
pub open spec fn deny_in_line(line: Seq<char>) -> Option<i32> {
    if !contains(line, "pam_faillock.so"@) && !contains(line, "pam_tally2.so"@) && !contains(
        line,
        "pam_tally.so"@,
    ) {
        None
    } else {
        match find(line, "deny"@) {
            None => None,
            Some(idx) => {
                let rest = line.subrange(idx, line.len() as int);
                let eq = first_index_of(rest, '=');
                if eq >= rest.len() {
                    None
                } else {
                    let value = rest.subrange(eq + 1, rest.len() as int);
                    parse_i32_spec(value.subrange(0, value_end(value)))
                }
            },
        }
    }
}

/// The deny value of the first non-comment line that has one.
pub open spec fn first_deny(ls: Seq<Seq<char>>) -> Option<i32>
    decreases ls.len(),
{
    if ls.len() == 0 {
        None
    } else {
        let t = trim(ls[0]);
        if !starts_with(t, "#"@) && deny_in_line(t) is Some {
            deny_in_line(t)
        } else {
            first_deny(ls.drop_first())
        }
    }
}

/// The smaller of two optional limits; a missing one does not count.
pub open spec fn min_opt(a: Option<i32>, b: Option<i32>) -> Option<i32> {
    match (a, b) {
        (None, x) => x,
        (x, None) => x,
        (Some(x), Some(y)) => Some(if x <= y { x } else { y }),
    }
}

/// The smallest deny value over the stacks.
pub open spec fn min_deny_of(stacks: Seq<PamStack>) -> Option<i32>
    decreases stacks.len(),
{
    if stacks.len() == 0 {
        None
    } else {
        min_opt(min_deny_of(stacks.drop_last()), first_deny(lines(stacks.last().content@)))
    }
}

pub open spec fn any_has_module(stacks: Seq<PamStack>, module: Seq<char>) -> bool {
    exists|i: int| 0 <= i < stacks.len() && stack_has_module(#[trigger] stacks[i].content@, module)
}

pub open spec fn any_uses_lockout(stacks: Seq<PamStack>) -> bool {
    exists|i: int| 0 <= i < stacks.len() && stack_uses_lockout(#[trigger] stacks[i].content@)
}

/// The `deny = N` setting of a `faillock.conf` line.
pub open spec fn faillock_line_deny(line: Seq<char>) -> Option<i32> {
    if !starts_with(lowercase(line), "deny"@) {
        None
    } else {
        let eq = first_index_of(line, '=');
        if eq >= line.len() {
            None
        } else {
            parse_i32_spec(trim(line.subrange(eq + 1, line.len() as int)))
        }
    }
}

/// The deny setting of the first non-empty, non-comment line that has one.
pub open spec fn faillock_deny_in(ls: Seq<Seq<char>>) -> Option<i32>
    decreases ls.len(),
{
    if ls.len() == 0 {
        None
    } else {
        let t = trim(ls[0]);
        if !starts_with(t, "#"@) && t.len() > 0 && faillock_line_deny(t) is Some {
            faillock_line_deny(t)
        } else {
            faillock_deny_in(ls.drop_first())
        }
    }
}

/// What the stacks and the faillock configuration say together.
pub open spec fn pam_info_of(stacks: Seq<PamStack>, faillock_conf: Option<Seq<char>>) -> PamInfo {
    let lockout = any_uses_lockout(stacks);
    let conf_deny = match faillock_conf {
        Some(c) => faillock_deny_in(lines(c)),
        None => None,
    };
    let deny = match min_opt(min_deny_of(stacks), conf_deny) {
        Some(d) => d,
        None => -1i32,
    };
    PamInfo {
        has_fprintd: any_has_module(stacks, "pam_fprintd.so"@),
        has_u2f: any_has_module(stacks, "pam_u2f.so"@),
        lockout_configured: lockout,
        faillock_deny: if lockout && deny < 0 {
            3
        } else {
            deny
        },
        pam_config_valid: true,
    }
}

/// The attempts left before lockout, when a failed attempt is counted against a known limit.
pub open spec fn remaining_attempts(pam_state: Seq<char>, failure_count: i32, info: PamInfo) -> Option<i32> {
    if pam_state == "fail"@ && info.lockout_configured && info.faillock_deny >= 0 {
        let r = info.faillock_deny - failure_count;
        Some((if r < 0 {
            0
        } else {
            r
        }) as i32)
    } else {
        None
    }
}

pub open spec fn feedback_message(pam_state: Seq<char>, failure_count: i32, info: PamInfo) -> Seq<char> {
    if pam_state == "error"@ {
        "Authentication error - try again"@
    } else if pam_state == "max"@ {
        "Too many failed attempts - account may be locked"@
    } else if pam_state == "fail"@ {
        match remaining_attempts(pam_state, failure_count, info) {
            Some(r) => if r > 0 {
                "Incorrect password - attempt "@ + signed_decimal(failure_count + 1) + " of "@
                    + signed_decimal(info.faillock_deny as int) + " (lockout may follow)"@
            } else {
                "Incorrect password - next failures may trigger account lockout"@
            },
            None => "Incorrect password"@,
        }
    } else {
        Seq::empty()
    }
}

/// The arithmetic of the failure message stays within `i32`.
pub open spec fn feedback_in_range(pam_state: Seq<char>, failure_count: i32, info: PamInfo) -> bool {
    (pam_state == "fail"@ && info.lockout_configured && info.faillock_deny >= 0) ==> info.faillock_deny
        - failure_count <= i32::MAX
}

pub open spec fn lockout_text(lower: Seq<char>) -> bool {
    ||| contains(lower, "account is locked"@)
    ||| contains(lower, "too many"@)
    ||| contains(lower, "maximum number of"@)
    ||| contains(lower, "auth_err"@)
}

// ── Line scanning ───────────────────────────────────────────────────────────

proof fn lemma_value_end_unique(s: Seq<char>, i: int)
    requires
        0 <= i <= s.len(),
        i < s.len() ==> ends_value(s[i]),
        forall|k: int| 0 <= k < i ==> !ends_value(#[trigger] s[k]),
    ensures
        value_end(s) == i,
    decreases i,
{
    if i > 0 {
        assert forall|k: int| 0 <= k < i - 1 implies !ends_value(#[trigger] s.drop_first()[k]) by {
            assert(s.drop_first()[k] == s[k + 1]);
        }
        lemma_value_end_unique(s.drop_first(), i - 1);
    }
}

fn value_end_of(s: &[char]) -> (n: usize)
    ensures
        n == value_end(s@),
        n <= s.len(),
{
    let mut i: usize = 0;
    while i < s.len()
        invariant
            0 <= i <= s.len(),
            forall|k: int| 0 <= k < i ==> !ends_value(#[trigger] s@[k]),
        decreases s.len() - i,
    {
        let c = s[i];
        if is_whitespace(c) || c == '#' || c == '\0' {
            proof {
                lemma_value_end_unique(s@, i as int);
            }
            return i;
        }
        i = i + 1;
    }
    proof {
        lemma_value_end_unique(s@, i as int);
    }
    i
}

fn deny_of_line(line: &[char]) -> (r: Option<i32>)
    ensures
        r == deny_in_line(line@),
{
    let faillock = chars_of("pam_faillock.so");
    let tally2 = chars_of("pam_tally2.so");
    let tally = chars_of("pam_tally.so");
    if !contains_seq(line, faillock.as_slice()) && !contains_seq(line, tally2.as_slice())
        && !contains_seq(line, tally.as_slice()) {
        return None;
    }
    let deny = chars_of("deny");
    match find_pattern(line, deny.as_slice()) {
        None => None,
        Some(idx) => {
            let rest = slice_to_vec(line, idx, line.len());
            let eq = find_char(rest.as_slice(), '=');
            if eq >= rest.len() {
                return None;
            }
            let value = slice_to_vec(rest.as_slice(), eq + 1, rest.len());
            let end = value_end_of(value.as_slice());
            let token = slice_to_vec(value.as_slice(), 0, end);
            parse_i32(token.as_slice())
        },
    }
}

impl PamStack {
    /// Whether a line of the stack that is not a comment names `module_name`.
    pub fn has_module(&self, module_name: &str) -> (b: bool)
        ensures
            b == stack_has_module(self.content@, module_name@),
    {
        let cs = chars_of(self.content.as_str());
        let ls = lines_of(cs.as_slice());
        let m = chars_of(module_name);
        let hash = chars_of("#");
        let mut i: usize = 0;
        while i < ls.len()
            invariant
                0 <= i <= ls.len(),
                seqs_of(ls@) == lines(self.content@),
                m@ == module_name@,
                hash@ == "#"@,
                forall|k: int|
                    0 <= k < i ==> !(!is_comment(#[trigger] lines(self.content@)[k]) && contains(
                        lines(self.content@)[k],
                        module_name@,
                    )),
            decreases ls.len() - i,
        {
            let line = &ls[i];
            proof {
                assert(seqs_of(ls@)[i as int] == line@);
            }
            let t = trim_chars(line.as_slice());
            if !has_prefix(t.as_slice(), hash.as_slice()) && contains_seq(line.as_slice(), m.as_slice()) {
                return true;
            }
            i = i + 1;
        }
        false
    }

    /// Whether the stack loads a module that locks accounts after failures.
    pub fn uses_lockout(&self) -> (b: bool)
        ensures
            b == stack_uses_lockout(self.content@),
    {
        self.has_module("pam_faillock.so") || self.has_module("pam_tally2.so") || self.has_module(
            "pam_tally.so",
        )
    }

    /// The `deny=` value of the first lockout module line that has one.
    pub fn parse_deny_value(&self) -> (r: Option<i32>)
        ensures
            r == first_deny(lines(self.content@)),
    {
        let cs = chars_of(self.content.as_str());
        let ls = lines_of(cs.as_slice());
        let hash = chars_of("#");
        let mut i: usize = 0;
        assert(seqs_of(ls@).subrange(0, ls@.len() as int) =~= seqs_of(ls@));
        while i < ls.len()
            invariant
                0 <= i <= ls.len(),
                seqs_of(ls@) == lines(self.content@),
                hash@ == "#"@,
                first_deny(seqs_of(ls@).subrange(i as int, ls@.len() as int)) == first_deny(
                    lines(self.content@),
                ),
            decreases ls.len() - i,
        {
            let ghost rest = seqs_of(ls@).subrange(i as int, ls@.len() as int);
            proof {
                assert(rest[0] == ls@[i as int]@);
                assert(rest.drop_first() =~= seqs_of(ls@).subrange(i + 1, ls@.len() as int));
            }
            let t = trim_chars(ls[i].as_slice());
            if !has_prefix(t.as_slice(), hash.as_slice()) {
                let d = deny_of_line(t.as_slice());
                if d.is_some() {
                    return d;
                }
            }
            i = i + 1;
        }
        proof {
            assert(seqs_of(ls@).subrange(i as int, ls@.len() as int) =~= Seq::<Seq<char>>::empty());
        }
        None
    }
}

fn min_of(a: Option<i32>, b: Option<i32>) -> (r: Option<i32>)
    ensures
        r == min_opt(a, b),
{
    match (a, b) {
        (None, x) => x,
        (x, None) => x,
        (Some(x), Some(y)) => Some(if x <= y { x } else { y }),
    }
}

/// Reads PAM stacks and the faillock configuration.
#[derive(Debug, Clone, Copy)]
pub struct PamDetector;

impl PamDetector {
    /// What the given PAM stacks and `faillock.conf` text (when there is one)
    /// offer: fingerprint and U2F modules, lockout and its smallest deny
    /// limit (3 when lockout is configured without one, -1 when unknown).
    pub fn detect_pam_info(stacks: &[PamStack], faillock_conf: Option<&str>) -> (info: PamInfo)
        ensures
            info == pam_info_of(
                stacks@,
                match faillock_conf {
                    Some(c) => Some(c@),
                    None => None,
                },
            ),
    {
        let mut has_fprintd = false;
        let mut has_u2f = false;
        let mut lockout_found = false;
        let mut min_deny: Option<i32> = None;
        let mut i: usize = 0;
        while i < stacks.len()
            invariant
                0 <= i <= stacks.len(),
                has_fprintd == any_has_module(stacks@.subrange(0, i as int), "pam_fprintd.so"@),
                has_u2f == any_has_module(stacks@.subrange(0, i as int), "pam_u2f.so"@),
                lockout_found == any_uses_lockout(stacks@.subrange(0, i as int)),
                min_deny == min_deny_of(stacks@.subrange(0, i as int)),
            decreases stacks.len() - i,
        {
            let stack = &stacks[i];
            let ghost before = stacks@.subrange(0, i as int);
            let ghost after = stacks@.subrange(0, i + 1);
            proof {
                assert(after.drop_last() =~= before);
                assert(after.last() == *stack);
            }
            let f = stack.has_module("pam_fprintd.so");
            let u = stack.has_module("pam_u2f.so");
            let l = stack.uses_lockout();
            proof {
                assert forall|m: Seq<char>| any_has_module(after, m) == (any_has_module(before, m)
                    || stack_has_module(stack.content@, m)) by {
                    if any_has_module(after, m) {
                        let k = choose|k: int| 0 <= k < after.len() && stack_has_module(#[trigger] after[k].content@, m);
                        if k < i {
                            assert(before[k] == after[k]);
                        }
                    }
                    if any_has_module(before, m) {
                        let k = choose|k: int| 0 <= k < before.len() && stack_has_module(#[trigger] before[k].content@, m);
                        assert(before[k] == after[k]);
                    }
                    if stack_has_module(stack.content@, m) {
                        assert(after[i as int] == *stack);
                    }
                }
                if any_uses_lockout(after) {
                    let k = choose|k: int| 0 <= k < after.len() && stack_uses_lockout(#[trigger] after[k].content@);
                    if k < i {
                        assert(before[k] == after[k]);
                    }
                }
                if any_uses_lockout(before) {
                    let k = choose|k: int| 0 <= k < before.len() && stack_uses_lockout(#[trigger] before[k].content@);
                    assert(before[k] == after[k]);
                }
                if l {
                    assert(after[i as int] == *stack);
                }
            }
            has_fprintd = has_fprintd || f;
            has_u2f = has_u2f || u;
            lockout_found = lockout_found || l;
            let d = stack.parse_deny_value();
            min_deny = min_of(min_deny, d);
            i = i + 1;
        }
        proof {
            assert(stacks@.subrange(0, stacks@.len() as int) =~= stacks@);
        }
        let conf_deny = match faillock_conf {
            Some(c) => Self::parse_faillock_config(c),
            None => None,
        };
        let combined = min_of(min_deny, conf_deny);
        let mut deny: i32 = match combined {
            Some(d) => d,
            None => -1,
        };
        if lockout_found && deny < 0 {
            deny = 3;
        }
        PamInfo {
            has_fprintd,
            has_u2f,
            lockout_configured: lockout_found,
            faillock_deny: deny,
            pam_config_valid: true,
        }
    }

    /// The `deny` setting of a `faillock.conf` text: the first non-empty,
    /// non-comment line that sets it.
    pub fn parse_faillock_config(content: &str) -> (r: Option<i32>)
        ensures
            r == faillock_deny_in(lines(content@)),
    {
        let cs = chars_of(content);
        let ls = lines_of(cs.as_slice());
        let hash = chars_of("#");
        let mut i: usize = 0;
        assert(seqs_of(ls@).subrange(0, ls@.len() as int) =~= seqs_of(ls@));
        while i < ls.len()
            invariant
                0 <= i <= ls.len(),
                seqs_of(ls@) == lines(content@),
                hash@ == "#"@,
                faillock_deny_in(seqs_of(ls@).subrange(i as int, ls@.len() as int))
                    == faillock_deny_in(lines(content@)),
            decreases ls.len() - i,
        {
            let ghost rest = seqs_of(ls@).subrange(i as int, ls@.len() as int);
            proof {
                assert(rest[0] == ls@[i as int]@);
                assert(rest.drop_first() =~= seqs_of(ls@).subrange(i + 1, ls@.len() as int));
            }
            let t = trim_chars(ls[i].as_slice());
            if !has_prefix(t.as_slice(), hash.as_slice()) && t.len() > 0 {
                let d = Self::extract_faillock_deny(t.as_slice());
                if d.is_some() {
                    return d;
                }
            }
            i = i + 1;
        }
        proof {
            assert(seqs_of(ls@).subrange(i as int, ls@.len() as int) =~= Seq::<Seq<char>>::empty());
        }
        None
    }

    fn extract_faillock_deny(line: &[char]) -> (r: Option<i32>)
        ensures
            r == faillock_line_deny(line@),
    {
        let text = string_of(line);
        let lower = to_lowercase(text.as_str());
        let lower_chars = chars_of(lower.as_str());
        let deny = chars_of("deny");
        if !has_prefix(lower_chars.as_slice(), deny.as_slice()) {
            return None;
        }
        let eq = find_char(line, '=');
        if eq >= line.len() {
            return None;
        }
        let value = slice_to_vec(line, eq + 1, line.len());
        let trimmed = trim_chars(value.as_slice());
        parse_i32(trimmed.as_slice())
    }

    /// The feedback for a PAM result (`"error"`, `"max"`, `"fail"` or
    /// another state, which gets an empty message).
    pub fn generate_auth_feedback(pam_state: &str, failure_count: i32, info: &PamInfo) -> (f:
        AuthFeedback)
        requires
            feedback_in_range(pam_state@, failure_count, *info),
        ensures
            f.message@ == feedback_message(pam_state@, failure_count, *info),
            f.pam_state@ == pam_state@,
            f.is_lockout == (pam_state@ == "max"@),
            f.attempts_remaining == remaining_attempts(pam_state@, failure_count, *info),
    {
        proof {
            reveal_strlit("error");
            reveal_strlit("max");
            reveal_strlit("fail");
            assert("error"@.len() == 5 && "max"@.len() == 3 && "fail"@.len() == 4);
            assert("error"@ != "max"@ && "fail"@ != "max"@ && "error"@ != "fail"@);
        }
        let mut is_lockout = false;
        let mut attempts_remaining: Option<i32> = None;
        let message: Vec<char>;
        if same_text(pam_state, "error") {
            message = chars_of("Authentication error - try again");
        } else if same_text(pam_state, "max") {
            message = chars_of("Too many failed attempts - account may be locked");
            is_lockout = true;
        } else if same_text(pam_state, "fail") {
            if info.lockout_configured && info.faillock_deny >= 0 {
                let diff = info.faillock_deny - failure_count;
                let remaining = if diff < 0 {
                    0
                } else {
                    diff
                };
                attempts_remaining = Some(remaining);
                if remaining > 0 {
                    let mut m = chars_of("Incorrect password - attempt ");
                    let attempt = i64_to_decimal((failure_count + 1) as i64);
                    append_chars(&mut m, attempt.as_slice());
                    append_chars(&mut m, chars_of(" of ").as_slice());
                    let limit = i64_to_decimal(info.faillock_deny as i64);
                    append_chars(&mut m, limit.as_slice());
                    append_chars(&mut m, chars_of(" (lockout may follow)").as_slice());
                    message = m;
                } else {
                    message = chars_of("Incorrect password - next failures may trigger account lockout");
                }
            } else {
                message = chars_of("Incorrect password");
            }
        } else {
            message = Vec::new();
        }
        AuthFeedback {
            message: string_of(message.as_slice()),
            pam_state: string_of(chars_of(pam_state).as_slice()),
            is_lockout,
            attempts_remaining,
        }
    }

    /// Whether a PAM message says that the account is locked out.
    pub fn is_lockout_message(message: &str) -> (b: bool)
        ensures
            b == lockout_text(lowercase(message@)),
    {
        let lower = to_lowercase(message);
        let l = chars_of(lower.as_str());
        contains_seq(l.as_slice(), chars_of("account is locked").as_slice()) || contains_seq(
            l.as_slice(),
            chars_of("too many").as_slice(),
        ) || contains_seq(l.as_slice(), chars_of("maximum number of").as_slice()) || contains_seq(
            l.as_slice(),
            chars_of("auth_err").as_slice(),
        )
    }
}

} // verus!
