//! External authentication detection: whether a fingerprint reader answers
//! over D-Bus and whether the PAM stacks load the U2F module.
use vstd::prelude::*;
use crate::greeter::types::ExternalAuthStatus;
use crate::text::{chars_of, contains, contains_seq, from_utf8_lossy, utf8_lossy};

verus! {

/// Why a probe for external authentication failed.
#[derive(Debug, Clone)]
pub enum ExternalAuthError {
    DBus(String),
    ProbeFailed(String),
    NotAvailable,
}

/// Decides which external authentication methods are usable.
#[derive(Debug, Clone, Copy)]
pub struct ExternalAuthDetector;

/// Marker printed by the probe commands when `gdbus` or fprintd is missing.
pub open spec fn unavailable_marker() -> Seq<char> {
    "PROBE_UNAVAILABLE"@
}

/// What the two probe outputs say: the `gdbus` check did not report it
/// missing, and the device query ran, did not report fprintd missing, and
/// lists a device. `None` stands for a command that could not be run.
pub open spec fn fprintd_found(gdbus_check: Option<Seq<u8>>, devices: Option<Seq<u8>>) -> bool {
    let gdbus_missing = match gdbus_check {
        Some(out) => contains(utf8_lossy(out), unavailable_marker()),
        None => false,
    };
    if gdbus_missing {
        false
    } else {
        match devices {
            None => false,
            Some(out) => {
                let text = utf8_lossy(out);
                !contains(text, unavailable_marker()) && (contains(text, "objectpath"@) || contains(
                    text,
                    "Device"@,
                ))
            },
        }
    }
}

/// Some PAM file loads `pam_u2f.so`.
pub open spec fn u2f_in(contents: Seq<String>) -> bool {
    exists|i: int| 0 <= i < contents.len() && contains(#[trigger] contents[i]@, "pam_u2f.so"@)
}

pub open spec fn bytes_view(o: Option<&[u8]>) -> Option<Seq<u8>> {
    match o {
        Some(b) => Some(b@),
        None => None,
    }
}

impl ExternalAuthDetector {
    pub fn new() -> (d: Self) {
        ExternalAuthDetector
    }

    /// Whether fprintd has a device, from the standard output of the `gdbus`
    /// availability check and of the `GetDevices` call (`None` where the
    /// command could not be run).
    pub fn probe_fprintd(&self, gdbus_check: Option<&[u8]>, devices: Option<&[u8]>) -> (r: Result<
        bool,
        ExternalAuthError,
    >)
        ensures
            r matches Ok(found) && found == fprintd_found(bytes_view(gdbus_check), bytes_view(devices)),
    {
        let marker = chars_of("PROBE_UNAVAILABLE");
        match gdbus_check {
            Some(out) => {
                let text = from_utf8_lossy(out);
                let cs = chars_of(text.as_str());
                if contains_seq(cs.as_slice(), marker.as_slice()) {
                    return Ok(false);
                }
            },
            None => {},
        }
        match devices {
            None => Ok(false),
            Some(out) => {
                let text = from_utf8_lossy(out);
                let cs = chars_of(text.as_str());
                if contains_seq(cs.as_slice(), marker.as_slice()) {
                    Ok(false)
                } else {
                    Ok(contains_seq(cs.as_slice(), chars_of("objectpath").as_slice()) || contains_seq(
                        cs.as_slice(),
                        chars_of("Device").as_slice(),
                    ))
                }
            },
        }
    }

    /// Whether one of the PAM files (their texts) loads the U2F module.
    pub fn check_u2f_available(contents: &[String]) -> (b: bool)
        ensures
            b == u2f_in(contents@),
    {
        let m = chars_of("pam_u2f.so");
        let mut i: usize = 0;
        while i < contents.len()
            invariant
                0 <= i <= contents.len(),
                m@ == "pam_u2f.so"@,
                forall|k: int| 0 <= k < i ==> !contains(#[trigger] contents@[k]@, "pam_u2f.so"@),
            decreases contents.len() - i,
        {
            let cs = chars_of(contents[i].as_str());
            if contains_seq(cs.as_slice(), m.as_slice()) {
                return true;
            }
            i = i + 1;
        }
        false
    }

    /// The detected status: U2F from the PAM files, fingerprint from the
    /// probe outputs, with the probe counted as complete.
    pub fn detect_external_auth_sync(
        pam_contents: &[String],
        gdbus_check: Option<&[u8]>,
        devices: Option<&[u8]>,
    ) -> (s: ExternalAuthStatus)
        ensures
            s.has_u2f == u2f_in(pam_contents@),
            s.has_fprintd == fprintd_found(bytes_view(gdbus_check), bytes_view(devices)),
            s.fprintd_has_device == s.has_fprintd,
            s.fprintd_probe_complete,
            s.available == (s.has_fprintd || s.has_u2f),
    {
        let detector = Self::new();
        let has_u2f = Self::check_u2f_available(pam_contents);
        let fprintd = match detector.probe_fprintd(gdbus_check, devices) {
            Ok(found) => found,
            Err(_) => false,
        };
        ExternalAuthStatus::with_detection(fprintd, has_u2f, true, fprintd)
    }
}

impl Default for ExternalAuthDetector {
    fn default() -> (d: Self) {
        Self::new()
    }
}

} // verus!
