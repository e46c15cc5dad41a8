//! Greeter data shared between the modules.
use vstd::prelude::*;

verus! {

/// What the greeter remembers between runs.
#[derive(Debug, Clone)]
pub struct SessionMemory {
    pub last_session_id: Option<String>,
    pub last_successful_user: Option<String>,
}

impl Default for SessionMemory {
    fn default() -> (m: Self)
        ensures
            m.last_session_id is None,
            m.last_successful_user is None,
    {
        SessionMemory { last_session_id: None, last_successful_user: None }
    }
}

/// What the PAM configuration offers.
#[derive(Debug, Clone, Copy)]
pub struct PamInfo {
    pub has_fprintd: bool,
    pub has_u2f: bool,
    pub lockout_configured: bool,
    /// Failed attempts before lockout; -1 when unknown.
    pub faillock_deny: i32,
    pub pam_config_valid: bool,
}

impl Default for PamInfo {
    fn default() -> (p: Self)
        ensures
            !p.has_fprintd,
            !p.has_u2f,
            !p.lockout_configured,
            p.faillock_deny == -1,
            p.pam_config_valid,
    {
        PamInfo {
            has_fprintd: false,
            has_u2f: false,
            lockout_configured: false,
            faillock_deny: -1,
            pam_config_valid: true,
        }
    }
}

/// The message shown after an authentication attempt.
#[derive(Debug, Clone)]
pub struct AuthFeedback {
    pub message: String,
    pub pam_state: String,
    pub is_lockout: bool,
    pub attempts_remaining: Option<i32>,
}

/// Which external authentication methods are usable.
#[derive(Debug, Clone, Copy)]
pub struct ExternalAuthStatus {
    pub available: bool,
    pub has_fprintd: bool,
    pub has_u2f: bool,
    pub fprintd_probe_complete: bool,
    pub fprintd_has_device: bool,
}

impl Default for ExternalAuthStatus {
    fn default() -> (s: Self)
        ensures
            !s.available,
            !s.has_fprintd,
            !s.has_u2f,
            !s.fprintd_probe_complete,
            !s.fprintd_has_device,
    {
        ExternalAuthStatus {
            available: false,
            has_fprintd: false,
            has_u2f: false,
            fprintd_probe_complete: false,
            fprintd_has_device: false,
        }
    }
}

impl ExternalAuthStatus {
    /// The status after detection: external authentication is available when
    /// a fingerprint device answered a finished probe, or when U2F is configured.
    pub fn with_detection(
        has_fprintd: bool,
        has_u2f: bool,
        fprintd_probe_complete: bool,
        fprintd_has_device: bool,
    ) -> (s: Self)
        ensures
            s.has_fprintd == has_fprintd,
            s.has_u2f == has_u2f,
            s.fprintd_probe_complete == fprintd_probe_complete,
            s.fprintd_has_device == fprintd_has_device,
            s.available == ((has_fprintd && fprintd_probe_complete && fprintd_has_device) || has_u2f),
    {
        ExternalAuthStatus {
            has_fprintd,
            has_u2f,
            fprintd_probe_complete,
            fprintd_has_device,
            available: (has_fprintd && fprintd_probe_complete && fprintd_has_device) || has_u2f,
        }
    }
}

} // verus!
