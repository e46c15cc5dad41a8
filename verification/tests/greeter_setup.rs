use crawlds::greeter_cli::{
    cache_links, confirmed, detect_greeter_account, fallback_greetd_config, greeter_enabled,
    initial_greetd_config, is_backup_name, newest_backups_first, pick_compositor, resolve_compositor,
    restorable_backup, supported_compositors, CompositorChoice,
};
use crawlds::text_order::text_less;
use crawlds::greeter_setup::{
    build_greeter_command, extract_cache_dir_from_command, parse_toml_section,
    read_default_session_command, strip_toml_comment, upsert_default_session,
};

#[test]
fn strips_comments_and_white_space() {
    assert_eq!(strip_toml_comment("  vt = 1  # first terminal"), "vt = 1");
    assert_eq!(strip_toml_comment("# only a comment"), "");
    assert_eq!(strip_toml_comment("\tplain\t"), "plain");
}

#[test]
fn parses_section_headers() {
    assert_eq!(parse_toml_section("[default_session]"), Some("default_session".to_string()));
    assert_eq!(parse_toml_section("  [ terminal ] # vt"), Some("terminal".to_string()));
    assert_eq!(parse_toml_section("[]"), None);
    assert_eq!(parse_toml_section("user = \"greeter\""), None);
}

#[test]
fn reads_the_default_session_command() {
    let content = "[terminal]\nvt = 1\ncommand = \"not this\"\n\n[default_session]\nuser = \"greeter\"\ncommand = \"agreety --cmd /bin/bash\"\n";
    assert_eq!(read_default_session_command(content), "agreety --cmd /bin/bash");
    assert_eq!(read_default_session_command("[terminal]\nvt = 1\n"), "");
    assert_eq!(read_default_session_command(""), "");
}

#[test]
fn upsert_replaces_user_and_command() {
    let content = "[terminal]\nvt = 1\n\n[default_session]\nuser = \"old\"\ncommand = \"old-cmd\"\n";
    let updated = upsert_default_session(content, "greeter", "crawlds-greeter --command niri");
    assert_eq!(
        updated,
        "[terminal]\nvt = 1\n\n[default_session]\nuser = \"greeter\"\ncommand = \"crawlds-greeter --command niri\""
    );
}

#[test]
fn upsert_fills_an_empty_default_session() {
    let updated = upsert_default_session("[terminal]\nvt = 1\n\n[default_session]\n", "greeter", "tuigreet");
    assert_eq!(
        updated,
        "[terminal]\nvt = 1\n\n[default_session]\nuser = \"greeter\"\ncommand = \"tuigreet\""
    );
}

#[test]
fn upsert_adds_a_missing_default_session() {
    let updated = upsert_default_session("[terminal]\nvt = 1", "greeter", "tuigreet");
    assert_eq!(
        updated,
        "[terminal]\nvt = 1\n\n[default_session]\nuser = \"greeter\"\ncommand = \"tuigreet\""
    );
}

#[test]
fn upsert_closes_the_section_before_the_next_one() {
    let updated = upsert_default_session("[default_session]\nuser = \"a\"\n[other]\nx = 1", "greeter", "cmd");
    assert_eq!(
        updated,
        "[default_session]\nuser = \"greeter\"\ncommand = \"cmd\"\n[other]\nx = 1"
    );
}

#[test]
fn upserted_command_reads_back() {
    let configs = [
        "",
        "[terminal]\nvt = 1\n",
        "[terminal]\nvt = 1\n\n[default_session]\n",
        "[default_session]\ncommand = \"old\"\n\n",
        "[default_session] # main\nuser=old\ncommand=old\n[x]\ncommand = \"y\"\n",
    ];
    for content in configs {
        let command = "crawlds-greeter --command sway --cache-dir /var/cache/crawlds-greeter";
        let updated = upsert_default_session(content, "greeter", command);
        assert_eq!(read_default_session_command(&updated), command);
    }
}

#[test]
fn extracts_the_cache_dir() {
    assert_eq!(
        extract_cache_dir_from_command("crawlds-greeter --command niri --cache-dir /var/cache/g"),
        Some("/var/cache/g".to_string())
    );
    assert_eq!(
        extract_cache_dir_from_command("crawlds-greeter --cache-dir=\"/tmp/c\""),
        Some("/tmp/c".to_string())
    );
    assert_eq!(extract_cache_dir_from_command("crawlds-greeter --cache-dir"), None);
    assert_eq!(extract_cache_dir_from_command("agreety --cmd /bin/bash"), None);
}

#[test]
fn builds_the_greeter_command() {
    assert_eq!(
        build_greeter_command("/usr/bin/crawlds-greeter", "niri", "/var/cache/g", None),
        "/usr/bin/crawlds-greeter --command niri --cache-dir /var/cache/g"
    );
    assert_eq!(
        build_greeter_command("w", "sway", "/c", Some("/etc/sway/greeter")),
        "w --command sway --cache-dir /c -p /etc/sway/greeter"
    );
}

#[test]
fn lists_supported_compositors_in_order() {
    assert_eq!(
        supported_compositors(),
        vec!["niri", "hyprland", "sway", "labwc", "mango", "miracle-wm", "scroll"]
    );
}

#[test]
fn resolves_the_compositor() {
    let found = vec!["niri".to_string(), "sway".to_string()];
    assert!(matches!(resolve_compositor(Some("Hyprland"), &found, false), CompositorChoice::Chosen(ref s) if s == "hyprland"));
    assert!(matches!(resolve_compositor(None, &[], false), CompositorChoice::NoneFound));
    assert!(matches!(resolve_compositor(None, &found[..1], false), CompositorChoice::Chosen(ref s) if s == "niri"));
    assert!(matches!(resolve_compositor(None, &found, true), CompositorChoice::Chosen(ref s) if s == "niri"));
    assert!(matches!(resolve_compositor(None, &found, false), CompositorChoice::Ask));
}

#[test]
fn picks_the_compositor_by_number() {
    let found = vec!["niri".to_string(), "sway".to_string()];
    assert_eq!(pick_compositor(&found, " 2\n"), Some("sway".to_string()));
    assert_eq!(pick_compositor(&found, "1"), Some("niri".to_string()));
    assert_eq!(pick_compositor(&found, "0"), None);
    assert_eq!(pick_compositor(&found, "3"), None);
    assert_eq!(pick_compositor(&found, "sway"), None);
}

#[test]
fn confirms_unless_no() {
    assert!(confirmed(""));
    assert!(confirmed("y"));
    assert!(confirmed("yes please"));
    assert!(!confirmed("n"));
    assert!(!confirmed(" No \n"));
    assert!(!confirmed("NO"));
}

#[test]
fn detects_the_greeter_account() {
    assert_eq!(detect_greeter_account("root:x:0:0::/root:/bin/bash\ngreetd:x:970:970::/:/bin/false\n"), "greetd");
    assert_eq!(detect_greeter_account("_greeter:x:1:1\ngreeter:x:2:2\n"), "greeter");
    assert_eq!(detect_greeter_account("root:x:0:0\n"), "greeter");
}

#[test]
fn recognises_the_greeter_and_its_backups() {
    assert!(greeter_enabled("/usr/bin/crawlds-greeter --command niri"));
    assert!(!greeter_enabled("agreety --cmd /bin/bash"));
    assert!(is_backup_name("config.toml.backup-20240101"));
    assert!(!is_backup_name("config.toml"));
    let backups = vec![
        "command = \"crawlds-greeter\"".to_string(),
        "command = \"tuigreet\"".to_string(),
        "command = \"agreety\"".to_string(),
    ];
    assert_eq!(restorable_backup(&backups), Some(1));
    assert_eq!(restorable_backup(&backups[..1]), None);
}

#[test]
fn writes_the_stock_configurations() {
    assert_eq!(initial_greetd_config(), "[terminal]\nvt = 1\n\n[default_session]\n");
    assert_eq!(read_default_session_command(&fallback_greetd_config()), "agreety --cmd /bin/bash");
}

#[test]
fn links_the_greeter_cache() {
    let links = cache_links("/home/a", "/var/cache/g");
    assert_eq!(links.len(), 3);
    assert_eq!(links[0], ("/home/a/.config/crawlds/settings.json".to_string(), "/var/cache/g/settings.json".to_string()));
    assert_eq!(links[1], ("/home/a/.local/state/crawlds/session.json".to_string(), "/var/cache/g/session.json".to_string()));
    assert_eq!(links[2], ("/home/a/.cache/crawlds/crawlds-colors.json".to_string(), "/var/cache/g/colors.json".to_string()));
}

#[test]
fn backups_newest_first() {
    let names: Vec<String> = [
        "config.toml",
        "config.toml.backup-1700000000",
        "config.toml.backup-1710000000",
        "other",
        "config.toml.backup-1690000000",
    ]
    .iter()
    .map(|s| s.to_string())
    .collect();
    assert_eq!(newest_backups_first(&names), vec![2, 1, 4]);
    assert_eq!(newest_backups_first(&names[..1]), Vec::<usize>::new());
}

#[test]
fn texts_compare_by_code_point() {
    let c = |s: &str| s.chars().collect::<Vec<char>>();
    assert!(text_less(&c("abc"), &c("abd")));
    assert!(text_less(&c("ab"), &c("abc")));
    assert!(!text_less(&c("abc"), &c("abc")));
    assert!(!text_less(&c("b"), &c("abc")));
    assert!(text_less(&c(""), &c("a")));
    assert!(text_less(&c("Z"), &c("a")));
}
