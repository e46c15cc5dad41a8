use crawlds::greeter::config::Config;
use crawlds::greeter::external::ExternalAuthDetector;
use crawlds::greeter::greetd::{
    map_error, map_msg_type, AuthMessageKind, ErrorKind, GreetdReply, GreeterManager, GreeterSession,
};
use crawlds::greeter::memory::Memory;
use crawlds::greeter::pam::{PamDetector, PamStack};
use crawlds::greeter::types::{ExternalAuthStatus, PamInfo, SessionMemory};
use crawlds::ipc::types::{GreeterMessageType, GreeterState};

fn stack(content: &str) -> PamStack {
    PamStack { content: content.to_string(), path: "/etc/pam.d/test".to_string() }
}

#[test]
fn pam_module_detection_skips_comments() {
    let s = stack("auth sufficient pam_fprintd.so\n# auth required pam_u2f.so\n  # pam_faillock.so\n");
    assert!(s.has_module("pam_fprintd.so"));
    assert!(!s.has_module("pam_u2f.so"));
    assert!(!s.uses_lockout());
}

#[test]
fn pam_deny_value() {
    let s = stack("auth required pam_env.so\nauth required pam_faillock.so preauth deny=5 unlock_time=600\n");
    assert!(s.uses_lockout());
    assert_eq!(s.parse_deny_value(), Some(5));
    let t = stack("auth required pam_tally2.so deny=4#comment\n");
    assert_eq!(t.parse_deny_value(), Some(4));
    let none = stack("auth required pam_faillock.so preauth\n");
    assert_eq!(none.parse_deny_value(), None);
    let other = stack("auth required pam_unix.so deny=3\n");
    assert_eq!(other.parse_deny_value(), None);
}

#[test]
fn faillock_config() {
    assert_eq!(PamDetector::parse_faillock_config("# deny = 9\n\nDeny = 6\n"), Some(6));
    assert_eq!(PamDetector::parse_faillock_config("unlock_time = 600\n"), None);
}

#[test]
fn pam_info_combines_stacks() {
    let stacks = vec![
        stack("auth required pam_faillock.so deny=5\nauth sufficient pam_fprintd.so\n"),
        stack("auth required pam_tally2.so deny=3\n"),
    ];
    let info = PamDetector::detect_pam_info(&stacks, Some("deny = 4\n"));
    assert!(info.has_fprintd);
    assert!(!info.has_u2f);
    assert!(info.lockout_configured);
    assert_eq!(info.faillock_deny, 3);
    assert!(info.pam_config_valid);
}

#[test]
fn pam_info_defaults_deny_to_three_with_lockout() {
    let stacks = vec![stack("auth required pam_faillock.so preauth\n")];
    let info = PamDetector::detect_pam_info(&stacks, None);
    assert!(info.lockout_configured);
    assert_eq!(info.faillock_deny, 3);
    let none = PamDetector::detect_pam_info(&[], None);
    assert!(!none.lockout_configured);
    assert_eq!(none.faillock_deny, -1);
}

#[test]
fn auth_feedback_messages() {
    let mut info = PamInfo::default();
    let f = PamDetector::generate_auth_feedback("fail", 1, &info);
    assert_eq!(f.message, "Incorrect password");
    assert_eq!(f.attempts_remaining, None);
    assert!(!f.is_lockout);
    info.lockout_configured = true;
    info.faillock_deny = 3;
    let f = PamDetector::generate_auth_feedback("fail", 1, &info);
    assert_eq!(f.message, "Incorrect password - attempt 2 of 3 (lockout may follow)");
    assert_eq!(f.attempts_remaining, Some(2));
    let f = PamDetector::generate_auth_feedback("fail", 5, &info);
    assert_eq!(f.message, "Incorrect password - next failures may trigger account lockout");
    assert_eq!(f.attempts_remaining, Some(0));
    let f = PamDetector::generate_auth_feedback("max", 0, &info);
    assert_eq!(f.message, "Too many failed attempts - account may be locked");
    assert!(f.is_lockout);
    let f = PamDetector::generate_auth_feedback("error", 0, &info);
    assert_eq!(f.message, "Authentication error - try again");
    assert_eq!(f.pam_state, "error");
    let f = PamDetector::generate_auth_feedback("ok", 0, &info);
    assert_eq!(f.message, "");
}

#[test]
fn lockout_messages() {
    assert!(PamDetector::is_lockout_message("The account is locked due to 3 failed logins"));
    assert!(PamDetector::is_lockout_message("Too many attempts"));
    assert!(PamDetector::is_lockout_message("PAM_AUTH_ERR"));
    assert!(!PamDetector::is_lockout_message("Password:"));
}

fn out(b: &[u8]) -> Option<&[u8]> {
    Some(b)
}

#[test]
fn external_auth_probe() {
    let d = ExternalAuthDetector::new();
    let devices: &[u8] = b"([objectpath '/net/reactivated/Fprint/Device/0'],)";
    assert!(d.probe_fprintd(out(b""), out(devices)).unwrap());
    assert!(!d.probe_fprintd(out(b"PROBE_UNAVAILABLE\n"), out(devices)).unwrap());
    assert!(!d.probe_fprintd(None, out(b"PROBE_UNAVAILABLE")).unwrap());
    assert!(!d.probe_fprintd(None, None).unwrap());
    assert!(!d.probe_fprintd(None, out(b"([],)")).unwrap());
}

#[test]
fn external_auth_status() {
    let pam = vec!["auth sufficient pam_u2f.so".to_string()];
    assert!(ExternalAuthDetector::check_u2f_available(&pam));
    let s = ExternalAuthDetector::detect_external_auth_sync(&pam, None, None);
    assert!(s.available);
    assert!(s.has_u2f);
    assert!(!s.has_fprintd);
    assert!(s.fprintd_probe_complete);
    let s = ExternalAuthDetector::detect_external_auth_sync(&[], None, None);
    assert!(!s.available);
    let w = ExternalAuthStatus::with_detection(true, false, false, true);
    assert!(!w.available);
}

#[test]
fn greetd_reply_mapping() {
    assert!(matches!(map_msg_type(AuthMessageKind::Secret), GreeterMessageType::Secret));
    assert!(matches!(map_msg_type(AuthMessageKind::Info), GreeterMessageType::Info));
    assert_eq!(map_error(ErrorKind::AuthError, "bad password"), "auth_error: bad password");
    assert_eq!(map_error(ErrorKind::Error, "oops"), "error: oops");
}

#[test]
fn greetd_session_state_machine() {
    let mut s = GreeterSession::new("alice".to_string(), 1000);
    assert!(matches!(s.status.state, GreeterState::Authenticating));
    s.update_status(&GreetdReply::AuthMessage {
        auth_message_type: AuthMessageKind::Secret,
        auth_message: "Password:".to_string(),
    });
    assert!(matches!(s.status.state, GreeterState::AwaitingInput));
    assert_eq!(s.status.message.as_deref(), Some("Password:"));
    s.update_status(&GreetdReply::Error { error_type: ErrorKind::AuthError, description: "nope".to_string() });
    assert!(matches!(s.status.state, GreeterState::Error));
    assert_eq!(s.status.last_error.as_deref(), Some("auth_error: nope"));
    s.update_status(&GreetdReply::Success);
    assert!(matches!(s.status.state, GreeterState::Ready));
    assert!(!s.is_expired(60_000, 61_000));
    assert!(s.is_expired(60_000, 61_001));
    s.touch(5000);
    assert!(!s.is_expired(60_000, 61_001));
}

#[test]
fn greeter_manager() {
    let mut m = GreeterManager::new();
    assert!(matches!(m.status().state, GreeterState::Inactive));
    assert_eq!(m.status().username, "");
    assert!(!m.is_expired(1, u64::MAX));
    m.session = Some(GreeterSession::new("bob".to_string(), 0));
    assert_eq!(m.status().username, "bob");
    assert!(m.is_expired(10, 11));
    m.clear_session();
    assert!(m.session.is_none());
}

#[test]
fn greeter_config_paths() {
    let c = Config::default();
    assert_eq!(c.greetd_socket, "/run/greetd.sock");
    assert_eq!(c.session_ttl_secs, 60);
    assert_eq!(c.memory_path(), "/var/cache/crawlds-greeter/.local/state/memory.json");
    assert_eq!(c.session_path(), "/var/cache/crawlds-greeter/session.json");
}

#[test]
fn memory_dirty_tracking() {
    let mut m = Memory::from_parts(Config::default(), SessionMemory::default());
    assert!(!m.is_dirty());
    m.set_last_session_id(None);
    assert!(!m.is_dirty());
    m.set_last_session_id(Some("sway".to_string()));
    assert!(m.is_dirty());
    assert_eq!(m.last_session_id(), Some("sway"));
    m.mark_saved();
    assert!(!m.is_dirty());
    m.set_last_session_id(Some("sway".to_string()));
    assert!(!m.is_dirty());
    m.set_last_successful_user(Some("alice".to_string()));
    assert!(m.is_dirty());
    assert_eq!(m.last_successful_user(), Some("alice"));
    assert_eq!(m.memory().last_session_id.as_deref(), Some("sway"));
}
