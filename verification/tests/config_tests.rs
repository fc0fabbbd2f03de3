use auto_mac_layout::config::{
    config_dir_from, default_apply_delay_ms, default_notifications_enabled, get_config_path,
    get_preferences_path, preferences_or_default, temp_extension, Preferences,
};

#[test]
fn default_preferences() {
    let p = Preferences::default();
    assert_eq!(p.apply_delay_ms, 1000);
    assert!(p.notifications_enabled);
    assert_eq!(default_apply_delay_ms(), 1000);
    assert!(default_notifications_enabled());
}

#[test]
fn loaded_preferences_win_over_defaults() {
    let p = Preferences { apply_delay_ms: 300, notifications_enabled: false };
    assert_eq!(preferences_or_default(Some(p)), p);
    assert_eq!(preferences_or_default(None), Preferences::default());
}

#[test]
fn config_locations() {
    let dir = config_dir_from(Some("/Users/me/Library/Application Support"));
    assert_eq!(dir, "/Users/me/Library/Application Support/auto-mac-layout");
    assert_eq!(
        get_config_path(&dir),
        "/Users/me/Library/Application Support/auto-mac-layout/layouts.json"
    );
    assert_eq!(
        get_preferences_path(&dir),
        "/Users/me/Library/Application Support/auto-mac-layout/preferences.json"
    );
}

#[test]
fn config_dir_fallbacks() {
    assert_eq!(config_dir_from(None), "./auto-mac-layout");
    assert_eq!(config_dir_from(Some("/data/")), "/data/auto-mac-layout");
    assert_eq!(config_dir_from(Some("")), "auto-mac-layout");
    assert_eq!(get_config_path("/"), "/layouts.json");
}

#[test]
fn temp_extensions() {
    assert_eq!(temp_extension(Some("json")), "json.tmp");
    assert_eq!(temp_extension(None), "tmp");
}
