//! The daemon's configuration sections, their defaults, and the paths the
//! configuration falls back to.
use vstd::prelude::*;
use crate::text::{chars_of, concat_strs, join_path, joined, string_of};

verus! {

/// The theme section.
#[derive(Debug, Clone)]
pub struct ThemeConfig {
    pub current: Option<String>,
    pub variant: Option<String>,
    pub default_scheme: String,
    pub default_mode: String,
    pub auto_generate: bool,
    pub cache_dir: String,
}

impl Default for ThemeConfig {
    fn default() -> (c: Self)
        ensures
            c.current is None,
            c.variant is None,
            c.default_scheme@ == Seq::<char>::empty(),
            c.default_mode@ == Seq::<char>::empty(),
            !c.auto_generate,
            c.cache_dir@ == Seq::<char>::empty(),
    {
        ThemeConfig {
            current: None,
            variant: None,
            default_scheme: String::new(),
            default_mode: String::new(),
            auto_generate: false,
            cache_dir: String::new(),
        }
    }
}

/// The daemon section: where it listens and how much it logs.
#[derive(Debug, Clone)]
pub struct DaemonConfig {
    /// Path of the Unix socket.
    pub socket_path: String,
    /// TCP address of the HTTP bridge; empty disables it.
    pub tcp_addr: String,
    pub log_level: String,
}

impl DaemonConfig {
    /// The defaults for a runtime directory: the socket `crawlds.sock` in it,
    /// no TCP bridge, `info` logging.
    pub fn for_runtime_dir(runtime_dir: &str) -> (c: Self)
        ensures
            c.socket_path@ == runtime_dir@ + "/crawlds.sock"@,
            c.tcp_addr@ == Seq::<char>::empty(),
            c.log_level@ == "info"@,
    {
        DaemonConfig {
            socket_path: concat_strs(runtime_dir, "/crawlds.sock"),
            tcp_addr: String::new(),
            log_level: string_of(chars_of("info").as_slice()),
        }
    }
}

/// The runtime directory: `XDG_RUNTIME_DIR` when set, else `/run/user/UID`.
pub fn runtime_dir_from(xdg_runtime_dir: Option<&str>, uid: u32) -> (s: String)
    ensures
        s@ == match xdg_runtime_dir {
            Some(d) => d@,
            None => "/run/user/"@ + crate::text::decimal(uid as nat),
        },
{
    match xdg_runtime_dir {
        Some(d) => string_of(chars_of(d).as_slice()),
        None => {
            let mut v = chars_of("/run/user/");
            crate::text::append_chars(&mut v, crate::text::u64_to_decimal(uid as u64).as_slice());
            string_of(v.as_slice())
        },
    }
}

/// The greeter section.
#[derive(Debug, Clone)]
pub struct GreeterConfig {
    /// The greetd IPC socket.
    pub greetd_socket: String,
    /// How long an idle login conversation is kept, in seconds.
    pub session_ttl_secs: u64,
}

impl Default for GreeterConfig {
    fn default() -> (c: Self)
        ensures
            c.greetd_socket@ == "/run/greetd.sock"@,
            c.session_ttl_secs == 60,
    {
        GreeterConfig { greetd_socket: string_of(chars_of("/run/greetd.sock").as_slice()), session_ttl_secs: 60 }
    }
}

/// The idle section.
#[derive(Debug, Clone)]
pub struct IdleConfig {
    pub idle_timeout_secs: u64,
    pub dim_timeout_secs: u64,
    pub sleep_timeout_secs: u64,
    pub screen_off_timeout_secs: u64,
    pub lock_timeout_secs: u64,
    pub suspend_timeout_secs: u64,
    pub fade_duration_secs: u64,
    pub screen_off_command: Option<String>,
    pub lock_command: Option<String>,
    pub suspend_command: Option<String>,
}

impl Default for IdleConfig {
    fn default() -> (c: Self)
        ensures
            c.idle_timeout_secs == 300,
            c.dim_timeout_secs == 60,
            c.sleep_timeout_secs == 600,
            c.screen_off_timeout_secs == 600,
            c.lock_timeout_secs == 660,
            c.suspend_timeout_secs == 1800,
            c.fade_duration_secs == 5,
            c.screen_off_command is None,
            c.lock_command is None,
            c.suspend_command is None,
    {
        IdleConfig {
            idle_timeout_secs: 300,
            dim_timeout_secs: 60,
            sleep_timeout_secs: 600,
            screen_off_timeout_secs: 600,
            lock_timeout_secs: 660,
            suspend_timeout_secs: 1800,
            fade_duration_secs: 5,
            screen_off_command: None,
            lock_command: None,
            suspend_command: None,
        }
    }
}

pub open spec fn home_or_empty(home: Option<&str>) -> Seq<char> {
    match home {
        Some(h) => h@,
        None => Seq::empty(),
    }
}

/// `$XDG_CONFIG_HOME/crawlds/core.toml`, with `$HOME/.config` standing in
/// for an unset `XDG_CONFIG_HOME` (and an empty home for an unset `HOME`).
pub fn config_file_path(xdg_config_home: Option<&str>, home: Option<&str>) -> (s: String)
    ensures
        s@ == joined(
            joined(
                match xdg_config_home {
                    Some(c) => c@,
                    None => home_or_empty(home) + "/.config"@,
                },
                "crawlds"@,
            ),
            "core.toml"@,
        ),
{
    let base = match xdg_config_home {
        Some(c) => string_of(chars_of(c).as_slice()),
        None => match home {
            Some(h) => concat_strs(h, "/.config"),
            None => concat_strs("", "/.config"),
        },
    };
    proof {
        reveal_strlit("");
        assert(Seq::<char>::empty() + "/.config"@ =~= "/.config"@);
    }
    let dir = join_path(base.as_str(), "crawlds");
    join_path(dir.as_str(), "core.toml")
}

/// The assets directory: the configured one, or the system default when
/// none is configured.
pub fn assets_dir_or_default(assets_dir: &str) -> (s: String)
    ensures
        s@ == if assets_dir@.len() == 0 {
            "/usr/share/local/crawlds/assets"@
        } else {
            assets_dir@
        },
{
    let cs = chars_of(assets_dir);
    if cs.len() == 0 {
        string_of(chars_of("/usr/share/local/crawlds/assets").as_slice())
    } else {
        string_of(cs.as_slice())
    }
}

/// The cache directory: the configured one, or `crawlds` under
/// `XDG_CACHE_HOME` (`$HOME/.cache` when unset).
pub fn cache_dir_or_default(cache_dir: &str, xdg_cache_home: Option<&str>, home: Option<&str>) -> (s: String)
    ensures
        s@ == if cache_dir@.len() > 0 {
            cache_dir@
        } else {
            joined(
                match xdg_cache_home {
                    Some(c) => c@,
                    None => home_or_empty(home) + "/.cache"@,
                },
                "crawlds"@,
            )
        },
{
    let cs = chars_of(cache_dir);
    if cs.len() > 0 {
        return string_of(cs.as_slice());
    }
    let base = match xdg_cache_home {
        Some(c) => string_of(chars_of(c).as_slice()),
        None => match home {
            Some(h) => concat_strs(h, "/.cache"),
            None => concat_strs("", "/.cache"),
        },
    };
    proof {
        reveal_strlit("");
        assert(Seq::<char>::empty() + "/.cache"@ =~= "/.cache"@);
    }
    join_path(base.as_str(), "crawlds")
}


impl IdleConfig {
    /// The settings the idle monitor runs with: these timeouts and commands,
    /// a five-second fade, and no commands on resume.
    pub fn monitor_config(&self) -> (c: crate::power::idle::Config)
        ensures
            c.idle_timeout_secs == self.idle_timeout_secs,
            c.dim_timeout_secs == self.dim_timeout_secs,
            c.sleep_timeout_secs == self.sleep_timeout_secs,
            c.screen_off_timeout_secs == self.screen_off_timeout_secs,
            c.lock_timeout_secs == self.lock_timeout_secs,
            c.suspend_timeout_secs == self.suspend_timeout_secs,
            c.fade_duration_secs == 5,
            c.screen_off_command == self.screen_off_command,
            c.lock_command == self.lock_command,
            c.suspend_command == self.suspend_command,
            c.resume_screen_off_command is None,
            c.resume_lock_command is None,
            c.resume_suspend_command is None,
    {
        crate::power::idle::Config {
            idle_timeout_secs: self.idle_timeout_secs,
            dim_timeout_secs: self.dim_timeout_secs,
            sleep_timeout_secs: self.sleep_timeout_secs,
            screen_off_timeout_secs: self.screen_off_timeout_secs,
            lock_timeout_secs: self.lock_timeout_secs,
            suspend_timeout_secs: self.suspend_timeout_secs,
            fade_duration_secs: 5,
            screen_off_command: copy_opt(&self.screen_off_command),
            lock_command: copy_opt(&self.lock_command),
            suspend_command: copy_opt(&self.suspend_command),
            resume_screen_off_command: None,
            resume_lock_command: None,
            resume_suspend_command: None,
        }
    }
}

fn copy_opt(o: &Option<String>) -> (r: Option<String>)
    ensures
        r == *o,
{
    match o {
        Some(s) => Some(s.clone()),
        None => None,
    }
}

} // verus!
