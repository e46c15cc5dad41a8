use crawlds::ipc::types::BatteryState;
use crawlds::power::idle::{
    calculate_state, find_inhibit, idle_event_name, idle_status, idle_tick, remove_inhibit, Config,
    ExecutedActions, IdleError, IdleState, InhibitEntry,
};
use crawlds::power::profile::{
    get_profile, governor_for, has_performance_profile, profile_name, profile_of_governor, set_profile,
    upower_state_to_ipc, PowerError, PowerProfile,
};

#[test]
fn battery_states() {
    assert!(matches!(upower_state_to_ipc(1), BatteryState::Charging));
    assert!(matches!(upower_state_to_ipc(2), BatteryState::Discharging));
    assert!(matches!(upower_state_to_ipc(3), BatteryState::Empty));
    assert!(matches!(upower_state_to_ipc(4), BatteryState::FullyCharged));
    assert!(matches!(upower_state_to_ipc(9), BatteryState::Unknown));
}

#[test]
fn profiles() {
    assert_eq!(profile_name(0), "balanced");
    assert_eq!(profile_name(1), "power-saver");
    assert_eq!(profile_name(2), "performance");
    assert_eq!(profile_name(7), "balanced");
    assert_eq!(governor_for(1), "powersave");
    assert_eq!(profile_of_governor("performance\n"), 2);
    assert_eq!(profile_of_governor("powersave"), 1);
    assert_eq!(profile_of_governor("schedutil"), 0);
    let p = get_profile(Some("powersave\n")).unwrap();
    assert_eq!(p.profile, 1);
    assert_eq!(p.name, "power-saver");
    assert_eq!(get_profile(None).unwrap().profile, 0);
    assert_eq!(set_profile(2).unwrap().name, "performance");
    assert!(matches!(set_profile(3), Err(PowerError::ProfileNotAvailable)));
    assert!(has_performance_profile("performance powersave"));
    assert!(!has_performance_profile("schedutil"));
    let d = PowerProfile::default();
    assert_eq!((d.profile, d.name.as_str()), (0, "balanced"));
}

#[test]
fn idle_thresholds() {
    let cfg = Config::default();
    let none = ExecutedActions::none();
    assert!(matches!(calculate_state(10, &cfg, none).0, IdleState::Active));
    assert!(matches!(calculate_state(60, &cfg, none).0, IdleState::Dimming));
    assert!(matches!(calculate_state(300, &cfg, none).0, IdleState::Idle));
    assert!(matches!(calculate_state(600, &cfg, none).0, IdleState::Sleeping));
    assert!(calculate_state(5000, &cfg, none).1.is_none());
}

#[test]
fn idle_actions() {
    let mut cfg = Config::default();
    cfg.lock_command = Some("swaylock".to_string());
    cfg.suspend_command = Some("systemctl suspend".to_string());
    let none = ExecutedActions::none();
    let (s, a) = calculate_state(700, &cfg, none);
    assert!(matches!(s, IdleState::Sleeping));
    assert_eq!(a.as_deref(), Some("lock"));
    let (_, a) = calculate_state(1800, &cfg, none);
    assert_eq!(a.as_deref(), Some("suspend"));
    let locked = ExecutedActions { screen_off: true, lock: true, suspend: false };
    let (s, a) = calculate_state(700, &cfg, locked);
    assert!(matches!(s, IdleState::Locked));
    assert!(a.is_none());
}

#[test]
fn idle_events() {
    assert_eq!(idle_event_name(IdleState::Active), "resumed");
    assert_eq!(idle_event_name(IdleState::Idle), "idle_detected");
    assert_eq!(idle_event_name(IdleState::ScreenOff), "screen_off");
    let mut cfg = Config::default();
    cfg.lock_command = Some("swaylock".to_string());
    let t = idle_tick(700, false, &cfg, ExecutedActions::none());
    assert_eq!(t.events.len(), 2);
    assert_eq!(t.events[0].event, "sleeping");
    assert_eq!(t.events[1].event, "action_pending");
    assert_eq!(t.events[1].pending_action.as_deref(), Some("lock"));
    let inhibited = idle_tick(300, true, &cfg, ExecutedActions::none());
    assert!(inhibited.events.is_empty());
    let back = idle_tick(0, true, &cfg, ExecutedActions { screen_off: true, lock: false, suspend: false });
    assert!(matches!(back.state, IdleState::ScreenOff));
    let active = idle_tick(0, true, &Config::default(), ExecutedActions::none());
    assert_eq!(active.events.len(), 1);
    assert_eq!(active.events[0].event, "resumed");
    let st = idle_status(61, true);
    assert!(matches!(st.state, IdleState::Dimming));
    assert!(st.inhibited);
}

#[test]
fn inhibitors() {
    let mut list = vec![
        InhibitEntry { id: 4, reason: "video".to_string() },
        InhibitEntry { id: 9, reason: "call".to_string() },
    ];
    assert_eq!(find_inhibit(&list, 9), Some(1));
    assert!(remove_inhibit(&mut list, 4).is_ok());
    assert_eq!(list.len(), 1);
    assert!(matches!(remove_inhibit(&mut list, 4), Err(IdleError::InhibitNotFound(4))));
}
