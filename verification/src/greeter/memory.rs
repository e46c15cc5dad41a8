//! The greeter's remembered session, and whether it needs saving.
use vstd::prelude::*;
use crate::greeter::config::Config;
use crate::greeter::types::SessionMemory;
use crate::network::opt_text;

verus! {

/// The remembered session, with a flag set when it changed since it was
/// loaded or last saved.
pub struct Memory {
    config: Config,
    memory: SessionMemory,
    dirty: bool,
}

fn same_opt(a: &Option<String>, b: &Option<String>) -> (r: bool)
    ensures
        r == (opt_text(*a) == opt_text(*b)),
{
    match (a, b) {
        (Some(x), Some(y)) => *x == *y,
        (None, None) => true,
        _ => false,
    }
}

impl Memory {
    pub closed spec fn remembered(&self) -> SessionMemory {
        self.memory
    }

    pub closed spec fn dirty_flag(&self) -> bool {
        self.dirty
    }

    pub closed spec fn cfg(&self) -> Config {
        self.config
    }

    /// The configuration the memory was loaded with (it names the file).
    pub fn config(&self) -> (c: &Config)
        ensures
            *c == self.cfg(),
    {
        &self.config
    }

    /// A memory as loaded from disk: clean.
    pub fn from_parts(config: Config, memory: SessionMemory) -> (m: Self)
        ensures
            m.cfg() == config,
            m.remembered() == memory,
            !m.dirty_flag(),
    {
        Memory { config, memory, dirty: false }
    }

    pub fn last_session_id(&self) -> (r: Option<&str>)
        ensures
            opt_str(r) == opt_text(self.remembered().last_session_id),
    {
        match &self.memory.last_session_id {
            Some(s) => Some(s.as_str()),
            None => None,
        }
    }

    pub fn last_successful_user(&self) -> (r: Option<&str>)
        ensures
            opt_str(r) == opt_text(self.remembered().last_successful_user),
    {
        match &self.memory.last_successful_user {
            Some(s) => Some(s.as_str()),
            None => None,
        }
    }

    /// Remember the session id; the memory becomes dirty only if it changed.
    pub fn set_last_session_id(&mut self, id: Option<String>)
        ensures
            final(self).cfg() == old(self).cfg(),
            final(self).remembered().last_successful_user == old(self).remembered().last_successful_user,
            if opt_text(old(self).remembered().last_session_id) != opt_text(id) {
                final(self).remembered().last_session_id == id && final(self).dirty_flag()
            } else {
                final(self).remembered() == old(self).remembered()
                    && final(self).dirty_flag() == old(self).dirty_flag()
            },
    {
        if !same_opt(&self.memory.last_session_id, &id) {
            self.memory.last_session_id = id;
            self.dirty = true;
        }
    }

    /// Remember the last user who logged in; the memory becomes dirty only if it changed.
    pub fn set_last_successful_user(&mut self, user: Option<String>)
        ensures
            final(self).cfg() == old(self).cfg(),
            final(self).remembered().last_session_id == old(self).remembered().last_session_id,
            if opt_text(old(self).remembered().last_successful_user) != opt_text(user) {
                final(self).remembered().last_successful_user == user && final(self).dirty_flag()
            } else {
                final(self).remembered() == old(self).remembered()
                    && final(self).dirty_flag() == old(self).dirty_flag()
            },
    {
        if !same_opt(&self.memory.last_successful_user, &user) {
            self.memory.last_successful_user = user;
            self.dirty = true;
        }
    }

    pub fn is_dirty(&self) -> (b: bool)
        ensures
            b == self.dirty_flag(),
    {
        self.dirty
    }

    pub fn memory(&self) -> (m: &SessionMemory)
        ensures
            *m == self.remembered(),
    {
        &self.memory
    }

    /// Record that the memory was written out.
    pub fn mark_saved(&mut self)
        ensures
            final(self).cfg() == old(self).cfg(),
            final(self).remembered() == old(self).remembered(),
            !final(self).dirty_flag(),
    {
        self.dirty = false;
    }
}

pub open spec fn opt_str(o: Option<&str>) -> Option<Seq<char>> {
    match o {
        Some(s) => Some(s@),
        None => None,
    }
}

impl Default for Memory {
    fn default() -> (m: Self)
        ensures
            m.remembered().last_session_id is None,
            m.remembered().last_successful_user is None,
            !m.dirty_flag(),
    {
        Memory { config: Config::default(), memory: SessionMemory::default(), dirty: false }
    }
}

} // verus!
