use std::path::PathBuf;

use awg_tray::config::{default_bypass_apps, default_poll_interval_secs, AppConfig, BypassApp, ConfigFile};

fn config() -> AppConfig {
    AppConfig::load(PathBuf::from("/home/user/dev/vpn"), None)
}

#[test]
fn defaults_without_a_config_file() {
    let c = config();
    assert_eq!(c.config_dir, PathBuf::from("/home/user/dev/vpn"));
    assert_eq!(c.poll_interval_secs, 5);
    assert_eq!(default_poll_interval_secs(), 5);
    let names: Vec<&str> = c.bypass_apps.iter().map(|a| a.name.as_str()).collect();
    assert_eq!(names, vec!["Steam", "qBittorrent", "Transmission"]);
    assert!(c.bypass_apps.iter().all(|a| !a.enabled));
    assert_eq!(c.bypass_apps[0].processes, vec!["steam", "steamwebhelper"]);
    assert_eq!(c.bypass_apps[2].processes.len(), 4);
    assert!(c.enabled_bypass_processes().is_empty());
}

#[test]
fn file_values_override_defaults_field_by_field() {
    let file = ConfigFile {
        config_dir: None,
        poll_interval_secs: Some(30),
        bypass_apps: None,
    };
    let c = AppConfig::load(PathBuf::from("/d"), Some(file));
    assert_eq!(c.config_dir, PathBuf::from("/d"));
    assert_eq!(c.poll_interval_secs, 30);
    assert_eq!(c.bypass_apps, default_bypass_apps());

    let file = ConfigFile {
        config_dir: Some(PathBuf::from("/etc/vpn")),
        poll_interval_secs: None,
        bypass_apps: Some(vec![BypassApp {
            name: "Game".to_string(),
            processes: vec!["game".to_string()],
            enabled: true,
        }]),
    };
    let c = AppConfig::load(PathBuf::from("/d"), Some(file));
    assert_eq!(c.config_dir, PathBuf::from("/etc/vpn"));
    assert_eq!(c.poll_interval_secs, 5);
    assert_eq!(c.enabled_bypass_processes(), vec!["game"]);
}

#[test]
fn toggle_bypass_flips_by_name() {
    let mut c = config();
    assert!(c.toggle_bypass("Steam"));
    assert!(c.bypass_apps[0].enabled);
    assert_eq!(c.enabled_bypass_processes(), vec!["steam", "steamwebhelper"]);
    assert!(c.toggle_bypass("Transmission"));
    assert_eq!(
        c.enabled_bypass_processes(),
        vec![
            "steam",
            "steamwebhelper",
            "transmission-gtk",
            "transmission-qt",
            "transmission-daemon",
            "transmission-cli"
        ]
    );
    assert!(!c.toggle_bypass("Nope"));
    assert!(!c.toggle_bypass("steam"));
}

#[test]
fn toggle_bypass_twice_restores() {
    let mut c = config();
    let before = c.bypass_apps.clone();
    assert!(c.toggle_bypass("qBittorrent"));
    assert_ne!(c.bypass_apps, before);
    assert!(c.toggle_bypass("qBittorrent"));
    assert_eq!(c.bypass_apps, before);
}
