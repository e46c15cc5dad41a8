//! The greetd login conversation as a state machine: what each reply of
//! greetd does to the greeter status, and when an idle session expires.
//! The socket and its framing belong to the caller.
use vstd::prelude::*;
use crate::ipc::types::{GreeterMessageType, GreeterState, GreeterStatus};
use crate::network::opt_text;
use crate::text::{append_chars, chars_of, string_of};

verus! {

/// Why a greeter request failed.
#[derive(Debug, Clone)]
pub enum GreeterError {
    Io(String),
    Ipc(String),
    SessionExpired,
    NoSession,
}

/// The kind of prompt greetd sends.
#[derive(Debug, Clone, Copy, PartialEq, Eq, Structural)]
pub enum AuthMessageKind {
    Visible,
    Secret,
    Info,
    Error,
}

/// The kind of failure greetd reports.
#[derive(Debug, Clone, Copy, PartialEq, Eq, Structural)]
pub enum ErrorKind {
    AuthError,
    Error,
}

/// A reply of greetd to a request.
#[derive(Debug, Clone)]
pub enum GreetdReply {
    Success,
    AuthMessage { auth_message_type: AuthMessageKind, auth_message: String },
    Error { error_type: ErrorKind, description: String },
}

pub open spec fn message_type_of(kind: AuthMessageKind) -> GreeterMessageType {
    match kind {
        AuthMessageKind::Visible => GreeterMessageType::Visible,
        AuthMessageKind::Secret => GreeterMessageType::Secret,
        AuthMessageKind::Info => GreeterMessageType::Info,
        AuthMessageKind::Error => GreeterMessageType::Error,
    }
}

/// The text recorded for a greetd error.
pub open spec fn error_text(kind: ErrorKind, description: Seq<char>) -> Seq<char> {
    match kind {
        ErrorKind::AuthError => "auth_error: "@ + description,
        ErrorKind::Error => "error: "@ + description,
    }
}

/// Two statuses that agree on every field, strings by content.
pub open spec fn same_status(a: GreeterStatus, b: GreeterStatus) -> bool {
    &&& a.state == b.state
    &&& a.username@ == b.username@
    &&& opt_text(a.message) == opt_text(b.message)
    &&& a.message_type == b.message_type
    &&& opt_text(a.last_error) == opt_text(b.last_error)
}

/// `new` is `old` after greetd answered `reply`: success makes the session
/// ready, a prompt is shown and awaits input, an error is recorded.
pub open spec fn status_after(old: GreeterStatus, new: GreeterStatus, reply: GreetdReply) -> bool {
    &&& new.username@ == old.username@
    &&& match reply {
        GreetdReply::Success => {
            &&& new.state == GreeterState::Ready
            &&& opt_text(new.message) == opt_text(old.message)
            &&& new.message_type == old.message_type
            &&& opt_text(new.last_error) == opt_text(old.last_error)
        },
        GreetdReply::AuthMessage { auth_message_type, auth_message } => {
            &&& new.state == GreeterState::AwaitingInput
            &&& opt_text(new.message) == Some(auth_message@)
            &&& new.message_type == Some(message_type_of(auth_message_type))
            &&& opt_text(new.last_error) == opt_text(old.last_error)
        },
        GreetdReply::Error { error_type, description } => {
            &&& new.state == GreeterState::Error
            &&& opt_text(new.message) == opt_text(old.message)
            &&& new.message_type == old.message_type
            &&& opt_text(new.last_error) == Some(error_text(error_type, description@))
        },
    }
}

/// The status shown when no session is open.
pub open spec fn is_inactive_status(s: GreeterStatus) -> bool {
    &&& s.state == GreeterState::Inactive
    &&& s.username@ == Seq::<char>::empty()
    &&& s.message is None
    &&& s.message_type is None
    &&& s.last_error is None
}

/// The status type of a greetd prompt.
pub fn map_msg_type(kind: AuthMessageKind) -> (t: GreeterMessageType)
    ensures
        t == message_type_of(kind),
{
    match kind {
        AuthMessageKind::Visible => GreeterMessageType::Visible,
        AuthMessageKind::Secret => GreeterMessageType::Secret,
        AuthMessageKind::Info => GreeterMessageType::Info,
        AuthMessageKind::Error => GreeterMessageType::Error,
    }
}

/// The recorded text of a greetd error: its kind, a colon, the description.
pub fn map_error(kind: ErrorKind, description: &str) -> (s: String)
    ensures
        s@ == error_text(kind, description@),
{
    let mut v = match kind {
        ErrorKind::AuthError => chars_of("auth_error: "),
        ErrorKind::Error => chars_of("error: "),
    };
    append_chars(&mut v, chars_of(description).as_slice());
    string_of(v.as_slice())
}

fn copy_text(o: &Option<String>) -> (r: Option<String>)
    ensures
        opt_text(r) == opt_text(*o),
{
    match o {
        Some(s) => Some(string_of(chars_of(s.as_str()).as_slice())),
        None => None,
    }
}

/// A copy of a status, field by field.
pub fn copy_status(s: &GreeterStatus) -> (c: GreeterStatus)
    ensures
        same_status(c, *s),
{
    GreeterStatus {
        state: s.state,
        username: string_of(chars_of(s.username.as_str()).as_slice()),
        message: copy_text(&s.message),
        message_type: s.message_type,
        last_error: copy_text(&s.last_error),
    }
}

/// One login conversation: who logs in, where it stands, and when greetd
/// last answered (milliseconds on a monotonic clock).
#[derive(Debug)]
pub struct GreeterSession {
    pub username: String,
    pub status: GreeterStatus,
    pub last_activity_ms: u64,
}

impl GreeterSession {
    /// A conversation that has just asked greetd to open a session.
    pub fn new(username: String, now_ms: u64) -> (s: Self)
        ensures
            s.username@ == username@,
            s.status.state == GreeterState::Authenticating,
            s.status.username@ == username@,
            s.status.message is None,
            s.status.message_type is None,
            s.status.last_error is None,
            s.last_activity_ms == now_ms,
    {
        let name_copy = string_of(chars_of(username.as_str()).as_slice());
        GreeterSession {
            username,
            status: GreeterStatus {
                state: GreeterState::Authenticating,
                username: name_copy,
                message: None,
                message_type: None,
                last_error: None,
            },
            last_activity_ms: now_ms,
        }
    }

    /// Apply a greetd reply to the status.
    pub fn update_status(&mut self, reply: &GreetdReply)
        ensures
            final(self).username@ == old(self).username@,
            final(self).last_activity_ms == old(self).last_activity_ms,
            status_after(old(self).status, final(self).status, *reply),
    {
        match reply {
            GreetdReply::Success => {
                self.status.state = GreeterState::Ready;
            },
            GreetdReply::AuthMessage { auth_message_type, auth_message } => {
                self.status.state = GreeterState::AwaitingInput;
                self.status.message = Some(string_of(chars_of(auth_message.as_str()).as_slice()));
                self.status.message_type = Some(map_msg_type(*auth_message_type));
            },
            GreetdReply::Error { error_type, description } => {
                self.status.state = GreeterState::Error;
                self.status.last_error = Some(map_error(*error_type, description.as_str()));
            },
        }
    }

    /// Record that greetd answered at `now_ms`.
    pub fn touch(&mut self, now_ms: u64)
        ensures
            final(self).username == old(self).username,
            final(self).status == old(self).status,
            final(self).last_activity_ms == now_ms,
    {
        self.last_activity_ms = now_ms;
    }

    pub fn status(&self) -> (s: &GreeterStatus)
        ensures
            *s == self.status,
    {
        &self.status
    }

    /// More than `ttl_ms` passed since greetd last answered (a clock reading
    /// before the last activity counts as no time passed).
    pub fn is_expired(&self, ttl_ms: u64, now_ms: u64) -> (b: bool)
        ensures
            b == (now_ms > self.last_activity_ms && now_ms - self.last_activity_ms > ttl_ms),
    {
        now_ms > self.last_activity_ms && now_ms - self.last_activity_ms > ttl_ms
    }
}

/// Holds the open login conversation, if there is one.
#[derive(Debug)]
pub struct GreeterManager {
    pub session: Option<GreeterSession>,
}

impl Default for GreeterManager {
    fn default() -> (m: Self)
        ensures
            m.session is None,
    {
        GreeterManager { session: None }
    }
}

impl GreeterManager {
    pub fn new() -> (m: Self)
        ensures
            m.session is None,
    {
        GreeterManager { session: None }
    }

    /// The status of the open conversation, or the inactive status.
    pub fn status(&self) -> (s: GreeterStatus)
        ensures
            match self.session {
                Some(sess) => same_status(s, sess.status),
                None => is_inactive_status(s),
            },
    {
        match &self.session {
            Some(sess) => copy_status(&sess.status),
            None => GreeterStatus {
                state: GreeterState::Inactive,
                username: String::new(),
                message: None,
                message_type: None,
                last_error: None,
            },
        }
    }

    /// Whether the open conversation has expired; `false` when none is open.
    pub fn is_expired(&self, ttl_ms: u64, now_ms: u64) -> (b: bool)
        ensures
            b == match self.session {
                Some(sess) => now_ms > sess.last_activity_ms && now_ms - sess.last_activity_ms > ttl_ms,
                None => false,
            },
    {
        match &self.session {
            Some(sess) => sess.is_expired(ttl_ms, now_ms),
            None => false,
        }
    }

    pub fn clear_session(&mut self)
        ensures
            final(self).session is None,
    {
        self.session = None;
    }
}

} // verus!
