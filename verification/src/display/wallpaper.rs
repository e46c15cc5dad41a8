//! Wallpaper: the settings, the request to set a wallpaper, and the `swww`
//! command line that carries it out.
use vstd::prelude::*;
use crate::display::nightlight::strs;
use crate::text::{chars_of, decimal, string_of, u64_to_decimal};

verus! {

/// Wallpaper settings.
#[derive(Debug, Clone)]
pub struct Config {
    pub swww_bin: String,
    pub default_transition: String,
    pub transition_duration_ms: u64,
    pub default_wallpaper: Option<String>,
    pub auto_generate_theme: bool,
}

fn text(s: &str) -> (r: String)
    ensures
        r@ == s@,
{
    string_of(chars_of(s).as_slice())
}

impl Default for Config {
    fn default() -> (c: Self)
        ensures
            c.swww_bin@ == "swww"@,
            c.default_transition@ == "fade"@,
            c.transition_duration_ms == 500,
            c.default_wallpaper is None,
            c.auto_generate_theme,
    {
        Config {
            swww_bin: text("swww"),
            default_transition: text("fade"),
            transition_duration_ms: 500,
            default_wallpaper: None,
            auto_generate_theme: true,
        }
    }
}

/// How a wallpaper is fitted to the screen.
#[derive(Debug, Clone, Copy, PartialEq, Eq, Structural)]
pub enum WallpaperMode {
    Fill,
    Fit,
    Stretch,
    Center,
    Tile,
}

/// A request to set a wallpaper.
#[derive(Debug, Clone)]
pub struct SetWallpaperRequest {
    pub path: String,
    /// The output to set it on; all outputs when absent or empty.
    pub monitor: Option<String>,
    /// The transition; the backend's default when empty.
    pub transition: String,
    pub mode: WallpaperMode,
    /// Requested transition length; the `swww` backend uses its own setting.
    pub transition_duration_ms: u64,
}

/// What a backend reports of itself.
#[derive(Debug, Clone)]
pub struct BackendInfo {
    pub name: String,
    pub available: bool,
    pub daemon_running: bool,
    pub supports_animations: bool,
}

/// Settings of the `swww` backend.
#[derive(Debug, Clone)]
pub struct SwwwConfig {
    pub swww_bin: String,
    pub default_transition: String,
    pub transition_duration_ms: u64,
}

impl Default for SwwwConfig {
    fn default() -> (c: Self)
        ensures
            c.swww_bin@ == "swww"@,
            c.default_transition@ == "fade"@,
            c.transition_duration_ms == 500,
    {
        SwwwConfig { swww_bin: text("swww"), default_transition: text("fade"), transition_duration_ms: 500 }
    }
}

pub open spec fn mode_name(mode: WallpaperMode) -> Seq<char> {
    match mode {
        WallpaperMode::Fill => "fill"@,
        WallpaperMode::Fit => "fit"@,
        WallpaperMode::Stretch => "stretch"@,
        WallpaperMode::Center => "center"@,
        WallpaperMode::Tile => "tile"@,
    }
}

/// The name `swww` uses for a fill mode.
pub fn swww_fill_mode(mode: WallpaperMode) -> (s: String)
    ensures
        s@ == mode_name(mode),
{
    let lit = match mode {
        WallpaperMode::Fill => "fill",
        WallpaperMode::Fit => "fit",
        WallpaperMode::Stretch => "stretch",
        WallpaperMode::Center => "center",
        WallpaperMode::Tile => "tile",
    };
    text(lit)
}

/// The arguments of `swww` for a request: `set PATH`, the output when one
/// is named, the transition (the default when the request names none), its
/// duration, and the fill mode.
pub open spec fn swww_args_spec(request: SetWallpaperRequest, config: SwwwConfig) -> Seq<Seq<char>> {
    let output = match request.monitor {
        Some(m) => if m@.len() > 0 {
            seq!["--output"@, m@]
        } else {
            Seq::empty()
        },
        None => Seq::empty(),
    };
    let transition = if request.transition@.len() == 0 {
        config.default_transition@
    } else {
        request.transition@
    };
    seq!["set"@, request.path@] + output + seq![
        "--transition-type"@,
        transition,
        "--transition-duration"@,
        decimal(config.transition_duration_ms as nat),
        "--transition-pos"@,
        mode_name(request.mode),
    ]
}

fn push_str(v: &mut Vec<String>, s: String)
    ensures
        strs(final(v)@) == strs(old(v)@).push(s@),
{
    let ghost before = v@;
    v.push(s);
    assert(strs(v@) =~= strs(before).push(s@));
}

/// The `swww` command line for a request.
pub fn swww_set_args(request: &SetWallpaperRequest, config: &SwwwConfig) -> (v: Vec<String>)
    ensures
        strs(v@) == swww_args_spec(*request, *config),
{
    let mut v: Vec<String> = Vec::new();
    push_str(&mut v, text("set"));
    push_str(&mut v, request.path.clone());
    let ghost head = strs(v@);
    match &request.monitor {
        Some(m) => {
            if chars_of(m.as_str()).len() > 0 {
                push_str(&mut v, text("--output"));
                push_str(&mut v, m.clone());
            }
        },
        None => {},
    }
    let ghost mid = strs(v@);
    let transition = if chars_of(request.transition.as_str()).len() == 0 {
        config.default_transition.clone()
    } else {
        request.transition.clone()
    };
    push_str(&mut v, text("--transition-type"));
    push_str(&mut v, transition);
    push_str(&mut v, text("--transition-duration"));
    push_str(&mut v, string_of(u64_to_decimal(config.transition_duration_ms).as_slice()));
    push_str(&mut v, text("--transition-pos"));
    push_str(&mut v, swww_fill_mode(request.mode));
    proof {
        assert(strs(v@) =~= swww_args_spec(*request, *config));
    }
    v
}

/// The backend used when no real one is installed: it accepts every
/// request and does nothing.
#[derive(Debug, Clone, Copy)]
pub struct DummyBackend;

impl DummyBackend {
    pub fn name(&self) -> (s: &'static str)
        ensures
            s@ == "dummy"@,
    {
        "dummy"
    }

    pub fn set_wallpaper(&self, request: SetWallpaperRequest) -> (r: Result<(), String>)
        ensures
            r is Ok,
    {
        Ok(())
    }

    pub fn supports_animations(&self) -> (b: bool)
        ensures
            !b,
    {
        false
    }
}

} // verus!
