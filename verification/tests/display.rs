use crawlds::display::nightlight::{
    clamp_temperature, disable_temperature, enable_temperature, redshift_args, status_for, Nightlight,
};
use crawlds::display::wallpaper::{
    swww_fill_mode, swww_set_args, Config, DummyBackend, SetWallpaperRequest, SwwwConfig, WallpaperMode,
};

#[test]
fn nightlight_temperature() {
    assert_eq!(clamp_temperature(500), 1000);
    assert_eq!(clamp_temperature(4500), 4500);
    assert_eq!(clamp_temperature(20000), 10000);
    assert_eq!(enable_temperature(), 4500);
    assert_eq!(disable_temperature(), 6500);
    assert!(!status_for(6500, true).enabled);
    assert!(status_for(4500, false).enabled);
    let mut n = Nightlight::new();
    assert!(!n.get_status(true).enabled);
    assert_eq!(n.record_temperature(200), 1000);
    assert_eq!(n.get_status(true).temperature_k, 1000);
    assert_eq!(redshift_args(4500, true), vec!["-O".to_string(), "4500".to_string()]);
    assert_eq!(redshift_args(4500, false), vec!["-O".to_string(), "4500".to_string(), "-P".to_string()]);
}

#[test]
fn swww_command_line() {
    let cfg = SwwwConfig::default();
    let req = SetWallpaperRequest {
        path: "/w.png".to_string(),
        monitor: Some("DP-1".to_string()),
        transition: String::new(),
        mode: WallpaperMode::Fit,
        transition_duration_ms: 900,
    };
    assert_eq!(
        swww_set_args(&req, &cfg),
        vec![
            "set", "/w.png", "--output", "DP-1", "--transition-type", "fade", "--transition-duration", "500",
            "--transition-pos", "fit",
        ]
    );
    let req2 = SetWallpaperRequest { path: "/a".into(), monitor: Some(String::new()), transition: "wipe".into(), mode: WallpaperMode::Tile, transition_duration_ms: 0 };
    assert_eq!(swww_set_args(&req2, &cfg)[2], "--transition-type");
    assert_eq!(swww_set_args(&req2, &cfg)[3], "wipe");
    assert_eq!(swww_fill_mode(WallpaperMode::Stretch), "stretch");
    let c = Config::default();
    assert_eq!(c.swww_bin, "swww");
    assert!(c.auto_generate_theme);
    assert_eq!(DummyBackend.name(), "dummy");
    assert!(DummyBackend.set_wallpaper(req2).is_ok());
}
