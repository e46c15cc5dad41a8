use crawlds::daemon::config::{
    assets_dir_or_default, cache_dir_or_default, config_file_path, runtime_dir_from, DaemonConfig,
    GreeterConfig, IdleConfig, ThemeConfig,
};
use crawlds::daemon::settings::{config_get, config_set};
use crawlds::daemon::state::{ClipboardEntry, ClipboardStore};

fn entry(id: &str, content: &str) -> ClipboardEntry {
    ClipboardEntry {
        id: id.to_string(),
        content: content.to_string(),
        preview: content.to_string(),
        mime: "text/plain".to_string(),
        size: content.len(),
        is_image: false,
        timestamp_ms: 0,
        pinned: false,
    }
}

fn ids(store: &ClipboardStore) -> Vec<String> {
    store.get_history(100).into_iter().map(|e| e.id).collect()
}

#[test]
fn history_newest_first_without_duplicates() {
    let mut s = ClipboardStore::new(3, 25);
    s.add_entry(entry("1", "a"));
    s.add_entry(entry("2", "b"));
    s.add_entry(entry("3", "a"));
    assert_eq!(ids(&s), vec!["3", "2"]);
    s.add_entry(entry("4", "c"));
    s.add_entry(entry("5", "d"));
    assert_eq!(ids(&s), vec!["5", "4", "3"]);
    assert_eq!(s.get_history(2).len(), 2);
}

#[test]
fn pinned_entries_survive() {
    let mut s = ClipboardStore::new(10, 1);
    s.add_entry(entry("1", "a"));
    s.add_entry(entry("2", "b"));
    assert!(s.pin_entry("1").is_ok());
    assert_eq!(s.pin_entry("2"), Err("max pinned entries reached"));
    assert!(s.is_pinned("1"));
    assert!(s.get_entry("1").unwrap().pinned);
    assert!(!s.delete_entry("1"));
    assert!(s.delete_entry("2"));
    assert!(!s.delete_entry("2"));
    s.add_entry(entry("3", "c"));
    s.clear_history();
    assert_eq!(ids(&s), vec!["1"]);
    s.unpin_entry("1");
    assert_eq!(s.pinned_count(), 0);
    assert!(!s.get_entry("1").unwrap().pinned);
    assert!(s.get_entry("9").is_none());
}

const CONF: &str = "[daemon]\nlog_level = \"info\"\n[theme]\ncurrent = \"nord\"\nvariant = \"dark\"\n";

#[test]
fn settings_get() {
    assert_eq!(config_get(CONF, "theme.current").as_deref(), Some("\"nord\""));
    assert_eq!(config_get(CONF, "daemon.log_level").as_deref(), Some("\"info\""));
    assert_eq!(config_get(CONF, "daemon.current"), None);
    assert_eq!(config_get(CONF, "missing.key"), None);
}

#[test]
fn settings_set() {
    let updated = config_set(CONF, "theme.variant", "\"light\"").unwrap();
    assert_eq!(updated, "[daemon]\nlog_level = \"info\"\n[theme]\ncurrent = \"nord\"\nvariant = \"light\"");
    assert_eq!(config_get(&updated, "theme.variant").as_deref(), Some("\"light\""));
    assert_eq!(config_set(CONF, "theme.missing", "1"), None);
}

#[test]
fn config_defaults() {
    let d = DaemonConfig::for_runtime_dir("/run/user/1000");
    assert_eq!(d.socket_path, "/run/user/1000/crawlds.sock");
    assert_eq!(d.tcp_addr, "");
    assert_eq!(d.log_level, "info");
    assert_eq!(runtime_dir_from(None, 1000), "/run/user/1000");
    assert_eq!(runtime_dir_from(Some("/xdg"), 1000), "/xdg");
    let g = GreeterConfig::default();
    assert_eq!(g.greetd_socket, "/run/greetd.sock");
    assert_eq!(g.session_ttl_secs, 60);
    let i = IdleConfig::default();
    assert_eq!((i.idle_timeout_secs, i.dim_timeout_secs, i.suspend_timeout_secs), (300, 60, 1800));
    let t = ThemeConfig::default();
    assert!(t.current.is_none());
    assert_eq!(config_file_path(None, Some("/home/u")), "/home/u/.config/crawlds/core.toml");
    assert_eq!(config_file_path(Some("/cfg/"), None), "/cfg/crawlds/core.toml");
    assert_eq!(assets_dir_or_default(""), "/usr/share/local/crawlds/assets");
    assert_eq!(assets_dir_or_default("/a"), "/a");
    assert_eq!(cache_dir_or_default("", None, Some("/home/u")), "/home/u/.cache/crawlds");
    assert_eq!(cache_dir_or_default("/c", None, None), "/c");
}

#[test]
fn idle_monitor_settings_from_daemon_config() {
    let d = IdleConfig::default();
    let c = d.monitor_config();
    assert_eq!(c.idle_timeout_secs, d.idle_timeout_secs);
    assert_eq!(c.dim_timeout_secs, d.dim_timeout_secs);
    assert_eq!(c.lock_timeout_secs, d.lock_timeout_secs);
    assert_eq!(c.fade_duration_secs, 5);
    assert_eq!(c.lock_command, d.lock_command);
    assert!(c.resume_lock_command.is_none());
    assert!(c.resume_screen_off_command.is_none());
    assert!(c.resume_suspend_command.is_none());
}
