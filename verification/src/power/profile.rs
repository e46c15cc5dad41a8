//! Power profiles, the CPU frequency governors that stand for them, and the
//! battery states reported by UPower.
use vstd::prelude::*;
use crate::ipc::types::BatteryState;
use crate::text::{chars_of, contains, contains_seq, same_text, string_of, trim, trim_chars};

verus! {

/// The active power profile: 0 balanced, 1 power saver, 2 performance.
#[derive(Debug, Clone)]
pub struct PowerProfile {
    pub profile: u32,
    pub name: String,
}

impl Default for PowerProfile {
    fn default() -> (p: Self)
        ensures
            p.profile == 0,
            p.name@ == "balanced"@,
    {
        PowerProfile { profile: 0, name: string_of(chars_of("balanced").as_slice()) }
    }
}

/// Why a power request failed.
#[derive(Debug, Clone)]
pub enum PowerError {
    DBus(String),
    NoBattery,
    ProfileNotAvailable,
}

/// UPower's device type number for a battery.
pub const UPOWER_TYPE_BATTERY: u32 = 2;

pub open spec fn battery_state_of(state: u32) -> BatteryState {
    if state == 1 {
        BatteryState::Charging
    } else if state == 2 {
        BatteryState::Discharging
    } else if state == 4 {
        BatteryState::FullyCharged
    } else if state == 3 {
        BatteryState::Empty
    } else {
        BatteryState::Unknown
    }
}

pub open spec fn profile_label(profile: u32) -> Seq<char> {
    if profile == 1 {
        "power-saver"@
    } else if profile == 2 {
        "performance"@
    } else {
        "balanced"@
    }
}

pub open spec fn governor_label(profile: u32) -> Seq<char> {
    if profile == 2 {
        "performance"@
    } else if profile == 1 {
        "powersave"@
    } else {
        "balanced"@
    }
}

/// The profile a `scaling_governor` file's text stands for.
pub open spec fn profile_of_governor_text(content: Seq<char>) -> u32 {
    if trim(content) == "performance"@ {
        2
    } else if trim(content) == "powersave"@ {
        1
    } else {
        0
    }
}

/// The battery state for UPower's state number.
pub fn upower_state_to_ipc(state: u32) -> (s: BatteryState)
    ensures
        s == battery_state_of(state),
{
    match state {
        1 => BatteryState::Charging,
        2 => BatteryState::Discharging,
        4 => BatteryState::FullyCharged,
        3 => BatteryState::Empty,
        _ => BatteryState::Unknown,
    }
}

/// The name of a profile; unknown numbers read as balanced.
pub fn profile_name(profile: u32) -> (s: String)
    ensures
        s@ == profile_label(profile),
{
    let lit = match profile {
        1 => "power-saver",
        2 => "performance",
        _ => "balanced",
    };
    string_of(chars_of(lit).as_slice())
}

/// The governor written to select a profile.
pub fn governor_for(profile: u32) -> (s: String)
    ensures
        s@ == governor_label(profile),
{
    let lit = match profile {
        2 => "performance",
        1 => "powersave",
        _ => "balanced",
    };
    string_of(chars_of(lit).as_slice())
}

/// The profile a `scaling_governor` file's text stands for.
pub fn profile_of_governor(content: &str) -> (p: u32)
    ensures
        p == profile_of_governor_text(content@),
{
    let t = trim_chars(chars_of(content).as_slice());
    let gov = string_of(t.as_slice());
    if same_text(gov.as_str(), "performance") {
        2
    } else if same_text(gov.as_str(), "powersave") {
        1
    } else {
        0
    }
}

/// The current profile, from the first CPU's governor text (balanced when
/// none could be read).
pub fn get_profile(governor: Option<&str>) -> (r: Result<PowerProfile, PowerError>)
    ensures
        r matches Ok(p) && p.profile == match governor {
            Some(g) => profile_of_governor_text(g@),
            None => 0,
        } && p.name@ == profile_label(p.profile),
{
    let profile = match governor {
        Some(g) => profile_of_governor(g),
        None => 0,
    };
    Ok(PowerProfile { profile, name: profile_name(profile) })
}

/// The profile to switch to: profiles 0, 1 and 2 exist, any other number
/// is refused.
pub fn set_profile(profile: u32) -> (r: Result<PowerProfile, PowerError>)
    ensures
        match r {
            Ok(p) => profile <= 2 && p.profile == profile && p.name@ == profile_label(profile),
            Err(e) => profile > 2 && e is ProfileNotAvailable,
        },
{
    if profile > 2 {
        return Err(PowerError::ProfileNotAvailable);
    }
    Ok(PowerProfile { profile, name: profile_name(profile) })
}

/// Whether a `scaling_available_governors` text offers the performance governor.
pub fn has_performance_profile(available_governors: &str) -> (b: bool)
    ensures
        b == contains(available_governors@, "performance"@),
{
    contains_seq(chars_of(available_governors).as_slice(), chars_of("performance").as_slice())
}

} // verus!
