use crawlds::ipc::error::{CrawlError, ErrorEnvelope};
use crawlds::ipc::types::{FsEvent, WallpaperSetOptions};

#[test]
fn error_messages() {
    let e = CrawlError::Bluetooth("adapter is off".to_string());
    assert_eq!(e.message(), "bluetooth error: adapter is off");
    let env = ErrorEnvelope::from_error(&e);
    assert_eq!(env.error.domain, "bluetooth");
    assert_eq!(env.error.code, "bluetooth_error");
    assert_eq!(env.error.message, "bluetooth error: adapter is off");
    let nf = ErrorEnvelope::from_error(&CrawlError::NotFound("x".to_string()));
    assert_eq!(nf.error.domain, "crawlds");
    assert_eq!(nf.error.code, "not_found");
    assert_eq!(nf.error.message, "not found: x");
    let p = ErrorEnvelope::from_error(&CrawlError::Process("gone".to_string()));
    assert_eq!((p.error.domain.as_str(), p.error.code.as_str()), ("proc", "process_error"));
    let made = ErrorEnvelope::new("d".to_string(), "c".to_string(), "m".to_string());
    assert_eq!(made.error.message, "m");
}

#[test]
fn wallpaper_options_builder() {
    let o = WallpaperSetOptions::new("/w.png".to_string())
        .with_monitor("DP-1".to_string())
        .with_transition("fade".to_string());
    assert_eq!(o.path, "/w.png");
    assert_eq!(o.monitor.as_deref(), Some("DP-1"));
    assert_eq!(o.transition.as_deref(), Some("fade"));
    assert!(WallpaperSetOptions::new("/a".to_string()).monitor.is_none());
}

#[test]
fn fs_event_paths() {
    let e = FsEvent::Renamed { from: "/a".to_string(), to: "/b".to_string() };
    assert_eq!(e.path().as_deref(), Some("/a"));
    let c = FsEvent::Created { path: "/c".to_string() };
    assert_eq!(c.path().as_deref(), Some("/c"));
}
