//! Power: UPower battery states, power profiles and the CPU governors that
//! carry them, and idle handling.
pub mod idle;
pub mod profile;
