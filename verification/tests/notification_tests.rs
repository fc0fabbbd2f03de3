use auto_mac_layout::notification::{is_enabled, notification_command, set_enabled, NotificationState};

#[test]
fn notifications_start_enabled_and_toggle() {
    let mut state = NotificationState::new();
    assert!(is_enabled(&state));
    set_enabled(&mut state, false);
    assert!(!is_enabled(&state));
    set_enabled(&mut state, true);
    assert!(is_enabled(&state));
}

#[test]
fn notification_script_plain() {
    let state = NotificationState::new();
    assert_eq!(
        notification_command(&state, "Auto Mac Layout", "Profile deleted"),
        Some("display notification \"Profile deleted\" with title \"Auto Mac Layout\"".to_string())
    );
}

#[test]
fn notification_script_escapes_quotes_and_backslashes() {
    let state = NotificationState::new();
    assert_eq!(
        notification_command(&state, "He said \"hi\"", "C:\\path\\"),
        Some("display notification \"C:\\\\path\\\\\" with title \"He said \\\"hi\\\"\"".to_string())
    );
}

#[test]
fn notification_disabled_sends_nothing() {
    let mut state = NotificationState::new();
    set_enabled(&mut state, false);
    assert_eq!(notification_command(&state, "t", "m"), None);
}
