//! The nightlight (blue light filter): the temperature it is set to, and
//! the `redshift` command that applies it.
use vstd::prelude::*;
use crate::text::{chars_of, decimal, string_of, u64_to_decimal};

verus! {

/// Nightlight settings.
#[derive(Debug, Clone, Copy)]
pub struct Config {
    pub enabled: bool,
    pub temperature_k: u32,
    pub auto_adjust: bool,
    pub transition_secs: u32,
}

impl Default for Config {
    fn default() -> (c: Self)
        ensures
            !c.enabled,
            c.temperature_k == 4500,
            c.auto_adjust,
            c.transition_secs == 30,
    {
        Config { enabled: false, temperature_k: 4500, auto_adjust: true, transition_secs: 30 }
    }
}

/// What the nightlight reports.
#[derive(Debug, Clone, Copy)]
pub struct NightlightStatus {
    pub enabled: bool,
    pub temperature_k: u32,
    pub available: bool,
}

/// Why the nightlight could not be changed.
#[derive(Debug, Clone)]
pub enum NightlightError {
    NotAvailable,
    AdjustFailed(String),
    Backend(String),
}

/// The neutral temperature: the nightlight is off at it.
pub const NEUTRAL_TEMPERATURE_K: u32 = 6500;

pub open spec fn clamped(kelvin: u32) -> u32 {
    if kelvin < 1000 {
        1000
    } else if kelvin > 10000 {
        10000
    } else {
        kelvin
    }
}

/// The temperature actually applied: within 1000 K to 10000 K.
pub fn clamp_temperature(kelvin: u32) -> (t: u32)
    ensures
        t == clamped(kelvin),
        1000 <= t <= 10000,
{
    if kelvin < 1000 {
        1000
    } else if kelvin > 10000 {
        10000
    } else {
        kelvin
    }
}

/// The status for the current temperature: on unless it is neutral.
pub fn status_for(temperature_k: u32, available: bool) -> (s: NightlightStatus)
    ensures
        s.enabled == (temperature_k != NEUTRAL_TEMPERATURE_K),
        s.temperature_k == temperature_k,
        s.available == available,
{
    NightlightStatus { enabled: temperature_k != NEUTRAL_TEMPERATURE_K, temperature_k, available }
}

/// The temperature `enable` sets: the configured default.
pub fn enable_temperature() -> (t: u32)
    ensures
        t == 4500,
{
    Config::default().temperature_k
}

/// The temperature `disable` sets: neutral.
pub fn disable_temperature() -> (t: u32)
    ensures
        t == NEUTRAL_TEMPERATURE_K,
{
    NEUTRAL_TEMPERATURE_K
}

pub open spec fn strs(v: Seq<String>) -> Seq<Seq<char>> {
    v.map_values(|s: String| s@)
}

/// The arguments of `redshift` that set the temperature: one-shot mode
/// (`-O`), with the adjustments reset (`-P`) when redshift is not running.
pub fn redshift_args(temperature_k: u32, running: bool) -> (v: Vec<String>)
    ensures
        strs(v@) == if running {
            seq!["-O"@, decimal(temperature_k as nat)]
        } else {
            seq!["-O"@, decimal(temperature_k as nat), "-P"@]
        },
{
    let mut v: Vec<String> = Vec::new();
    v.push(string_of(chars_of("-O").as_slice()));
    v.push(string_of(u64_to_decimal(temperature_k as u64).as_slice()));
    if !running {
        v.push(string_of(chars_of("-P").as_slice()));
    }
    proof {
        if running {
            assert(strs(v@) =~= seq!["-O"@, decimal(temperature_k as nat)]);
        } else {
            assert(strs(v@) =~= seq!["-O"@, decimal(temperature_k as nat), "-P"@]);
        }
    }
    v
}

/// The temperature the nightlight holds, neutral at start.
#[derive(Debug, Clone, Copy)]
pub struct Nightlight {
    current_k: u32,
}

impl Nightlight {
    pub closed spec fn current(&self) -> u32 {
        self.current_k
    }

    pub fn new() -> (n: Self)
        ensures
            n.current() == NEUTRAL_TEMPERATURE_K,
    {
        Nightlight { current_k: NEUTRAL_TEMPERATURE_K }
    }

    /// The status, given whether a backend is available.
    pub fn get_status(&self, available: bool) -> (s: NightlightStatus)
        ensures
            s.enabled == (self.current() != NEUTRAL_TEMPERATURE_K),
            s.temperature_k == self.current(),
            s.available == available,
    {
        status_for(self.current_k, available)
    }

    /// Record that the (clamped) temperature was applied.
    pub fn record_temperature(&mut self, kelvin: u32) -> (t: u32)
        ensures
            t == clamped(kelvin),
            final(self).current() == t,
    {
        let t = clamp_temperature(kelvin);
        self.current_k = t;
        t
    }
}

} // verus!
