use crawlds::shell::{
    build_qs_env, config_path_from, get_installed_version, get_shell_ipc_completions, ipc_call_args,
    is_pid_file_name, parent_pid_of, parse_pid, parse_targets_from_ipc_show_output, pid_file_name,
    is_daemon_child, process_exit_code, qs_run_args, show_command_args, signal_action, signal_targets,
    socket_path_from, QsEnvironment, ShellSignal, SignalAction,
};

const SHOW: &str = "target bar\n  function toggle(): void\n  function setHeight(height: int, animate: bool): void\ntarget launcher\n  function open(): void\n  function search(query: string): void\n";

fn strings(v: &[&str]) -> Vec<String> {
    v.iter().map(|s| s.to_string()).collect()
}

#[test]
fn parse_ipc_targets() {
    let t = parse_targets_from_ipc_show_output(SHOW);
    assert_eq!(t.targets.len(), 2);
    assert_eq!(t.targets[0].name, "bar");
    assert_eq!(t.targets[0].functions.len(), 2);
    assert_eq!(t.targets[0].functions[0].name, "toggle");
    assert!(t.targets[0].functions[0].args.is_empty());
    assert_eq!(t.targets[0].functions[1].name, "setHeight");
    assert_eq!(t.targets[0].functions[1].args, strings(&["setHeight", "height", "animate"]));
    assert_eq!(t.targets[1].name, "launcher");
    assert_eq!(t.targets[1].functions[1].args, strings(&["search", "query"]));
}

#[test]
fn parse_ignores_functions_without_target_and_repeats() {
    let t = parse_targets_from_ipc_show_output(
        "  function orphan(): void\ntarget a\n  function f(x: int): void\n  function f(): void\ntarget a\n",
    );
    assert_eq!(t.targets.len(), 1);
    assert_eq!(t.targets[0].functions.len(), 1);
    assert!(t.targets[0].functions[0].args.is_empty());
    assert!(parse_targets_from_ipc_show_output("").targets.is_empty());
}

#[test]
fn completions() {
    assert_eq!(get_shell_ipc_completions(&[], SHOW), strings(&["call", "bar", "launcher"]));
    assert_eq!(get_shell_ipc_completions(&strings(&["call"]), SHOW), strings(&["call", "bar", "launcher"]));
    assert_eq!(get_shell_ipc_completions(&strings(&["bar"]), SHOW), strings(&["toggle", "setHeight"]));
    assert_eq!(get_shell_ipc_completions(&strings(&["nope"]), SHOW), Vec::<String>::new());
    assert_eq!(get_shell_ipc_completions(&strings(&["bar", "setHeight"]), SHOW), strings(&["[height]"]));
    assert_eq!(
        get_shell_ipc_completions(&strings(&["call", "bar", "setHeight", "10"]), SHOW),
        strings(&["[animate]"])
    );
    assert_eq!(get_shell_ipc_completions(&strings(&["bar", "toggle"]), SHOW), Vec::<String>::new());
}

#[test]
fn exit_codes() {
    assert_eq!(process_exit_code(Some(3), None), 3);
    assert_eq!(process_exit_code(None, Some(15)), 143);
    assert_eq!(process_exit_code(None, None), 1);
}

#[test]
fn pid_files() {
    assert_eq!(pid_file_name(4242), "crawlunix-4242.pid");
    assert!(is_pid_file_name("crawlunix-17.pid"));
    assert!(!is_pid_file_name("crawlds.sock"));
    assert_eq!(parse_pid(" 1234\n"), Some(1234));
    assert_eq!(parse_pid("abc"), None);
    assert_eq!(parent_pid_of("crawlunix-77.pid"), Some(77));
    assert_eq!(parent_pid_of("crawlunix-x.pid"), None);
}

#[test]
fn installed_version() {
    let out = b"Name            : crawlds\nVersion         : 0.4.1-1\nArch : x86_64\n";
    assert_eq!(get_installed_version(true, out).as_deref(), Some("0.4.1-1"));
    assert_eq!(get_installed_version(false, out), None);
    assert_eq!(get_installed_version(true, b"Name : x\n"), None);
}

#[test]
fn ipc_command_lines() {
    let args = strings(&["bar", "toggle"]);
    assert_eq!(ipc_call_args(&args, Some(99), false, "/cfg"), strings(&["ipc", "--pid", "99", "call", "bar", "toggle"]));
    assert_eq!(
        ipc_call_args(&strings(&["call", "bar", "toggle"]), None, true, "/cfg"),
        strings(&["ipc", "--any-display", "-p", "/cfg", "call", "bar", "toggle"])
    );
    assert_eq!(show_command_args(false, "/cfg"), strings(&["ipc", "-p", "/cfg", "show"]));
}

#[test]
fn paths() {
    assert_eq!(config_path_from(Some("/x"), Some("/home/u")), "/x");
    assert_eq!(config_path_from(None, Some("/home/u")), "/home/u/.config/quickshell/crawldesktopshell");
    assert_eq!(config_path_from(None, None), "");
    assert_eq!(socket_path_from(None, "/run/user/1000"), "/run/user/1000/crawlds.sock");
    assert_eq!(socket_path_from(None, "/tmp/"), "/tmp/crawlds.sock");
    assert_eq!(socket_path_from(Some("/s.sock"), "/tmp"), "/s.sock");
}

#[test]
fn shell_environment() {
    let env = QsEnvironment {
        qt_logging_rules_set: false,
        launch_prefix_available: false,
        hot_reload_setting_set: false,
        home: Some("/home/u".to_string()),
        platform_theme_set: true,
        platform_theme_qt6_set: false,
        platform_set: true,
    };
    let vars = build_qs_env("/run/s.sock", "/etc/shell", &env);
    let keys: Vec<&str> = vars.iter().map(|(k, _)| k.as_str()).collect();
    assert_eq!(
        keys,
        vec!["CRAWLDS_SOCKET", "QT_LOGGING_RULES", "QS_APP_ID", "CRAWLDS_DISABLE_HOT_RELOAD", "QT_QPA_PLATFORMTHEME_QT6"]
    );
    assert_eq!(vars[0].1, "/run/s.sock");
    assert_eq!(vars[1].1, "*=false\nqt.quickshell.ipc.debug=true");
    assert_eq!(vars[2].1, "com.crawlunix.crawlds");
    let inside = build_qs_env("/s", "/home/u/.config/x", &env);
    assert!(!inside.iter().any(|(k, _)| k == "CRAWLDS_DISABLE_HOT_RELOAD"));
}

#[test]
fn signal_targets_once_each_without_self() {
    assert_eq!(signal_targets(&[10, 20, 10, 30, 20], 30), vec![10, 20]);
    assert_eq!(signal_targets(&[5], 5), Vec::<i32>::new());
    assert_eq!(signal_targets(&[], 1), Vec::<i32>::new());
}

#[test]
fn signals_restart_or_shut_down() {
    assert_eq!(signal_action(ShellSignal::Usr1, true), SignalAction::ExitForRestart);
    assert_eq!(signal_action(ShellSignal::Usr1, false), SignalAction::DetachedRestart);
    assert_eq!(signal_action(ShellSignal::Int, true), SignalAction::ShutDown);
    assert_eq!(signal_action(ShellSignal::Term, false), SignalAction::ShutDown);
}

#[test]
fn qs_arguments_and_daemon_child() {
    let extra = vec!["--verbose".to_string()];
    assert_eq!(qs_run_args("/home/a/shell", &extra), vec!["-p", "/home/a/shell", "--verbose"]);
    let argv: Vec<String> = ["crawlds", "run", "-d", "--daemon-child"].iter().map(|s| s.to_string()).collect();
    assert!(is_daemon_child(&argv));
    assert!(!is_daemon_child(&argv[..3]));
}
