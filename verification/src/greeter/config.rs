//! Greeter configuration and the paths derived from it.
use vstd::prelude::*;
use crate::text::{append_chars, chars_of, string_of};

verus! {

#[derive(Debug, Clone)]
pub struct Config {
    pub greetd_socket: String,
    pub session_ttl_secs: u64,
    pub cache_dir: String,
    pub memory_file: String,
    pub session_file: String,
}

impl Default for Config {
    fn default() -> (c: Self)
        ensures
            c.greetd_socket@ == "/run/greetd.sock"@,
            c.session_ttl_secs == 60,
            c.cache_dir@ == "/var/cache/crawlds-greeter"@,
            c.memory_file@ == ".local/state/memory.json"@,
            c.session_file@ == "session.json"@,
    {
        Config {
            greetd_socket: string_of(chars_of("/run/greetd.sock").as_slice()),
            session_ttl_secs: 60,
            cache_dir: string_of(chars_of("/var/cache/crawlds-greeter").as_slice()),
            memory_file: string_of(chars_of(".local/state/memory.json").as_slice()),
            session_file: string_of(chars_of("session.json").as_slice()),
        }
    }
}

fn join_path(dir: &String, file: &String) -> (s: String)
    ensures
        s@ == dir@ + "/"@ + file@,
{
    let mut v = chars_of(dir.as_str());
    append_chars(&mut v, chars_of("/").as_slice());
    append_chars(&mut v, chars_of(file.as_str()).as_slice());
    string_of(v.as_slice())
}

impl Config {
    /// `<cache_dir>/<memory_file>`.
    pub fn memory_path(&self) -> (s: String)
        ensures
            s@ == self.cache_dir@ + "/"@ + self.memory_file@,
    {
        join_path(&self.cache_dir, &self.memory_file)
    }

    /// `<cache_dir>/<session_file>`.
    pub fn session_path(&self) -> (s: String)
        ensures
            s@ == self.cache_dir@ + "/"@ + self.session_file@,
    {
        join_path(&self.cache_dir, &self.session_file)
    }
}

} // verus!
