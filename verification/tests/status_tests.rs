use auto_mac_layout::menu::{delay_checks, delay_choice_label, delay_choices_ms, profile_label};
use auto_mac_layout::status::{format_last_action, record_action, status_lines, ActionKind, LastAction};

#[test]
fn last_action_none() {
    let last: Option<LastAction<u64>> = None;
    assert_eq!(format_last_action(&last, 0), "Last action: —");
}

#[test]
fn last_action_times() {
    let mut last: Option<LastAction<u64>> = None;
    record_action(&mut last, ActionKind::Saved, 12, 99);
    assert_eq!(last.as_ref().map(|a| a.when), Some(99));
    assert_eq!(format_last_action(&last, 0), "Last: Saved (12 icons) — just now");
    assert_eq!(format_last_action(&last, 4), "Last: Saved (12 icons) — just now");
    assert_eq!(format_last_action(&last, 5), "Last: Saved (12 icons) — 5s ago");
    assert_eq!(format_last_action(&last, 59), "Last: Saved (12 icons) — 59s ago");
    assert_eq!(format_last_action(&last, 60), "Last: Saved (12 icons) — 1m ago");
    assert_eq!(format_last_action(&last, 3599), "Last: Saved (12 icons) — 59m ago");
    assert_eq!(format_last_action(&last, 3600), "Last: Saved (12 icons) — 1h ago");
    assert_eq!(format_last_action(&last, 90_000), "Last: Saved (12 icons) — 25h ago");
}

#[test]
fn last_action_kinds() {
    let mut last: Option<LastAction<()>> = None;
    record_action(&mut last, ActionKind::Restored, 1, ());
    assert_eq!(format_last_action(&last, 10), "Last: Restored (1 icons) — 10s ago");
    record_action(&mut last, ActionKind::NewProfileSaved, 7, ());
    assert_eq!(format_last_action(&last, 10), "Last: New profile saved (7 icons) — 10s ago");
}

#[test]
fn status_line_texts() {
    let (a, b, c) = status_lines("1 display: 2560×1600", 3, "Last action: —");
    assert_eq!(a, "📺  1 display: 2560×1600");
    assert_eq!(b, "💾  Saved profiles: 3");
    assert_eq!(c, "🕐  Last action: —");
}

#[test]
fn profile_labels() {
    let fp = "main=1|displays=1|id=1:vendor=2:model=3:serial=4:1920x1080@0,0";
    assert_eq!(profile_label(fp, fp, 14), "✓ 1 display: 1920×1080 — 14 icons");
    assert_eq!(profile_label(fp, "other", 2), "   1 display: 1920×1080 — 2 icons");
}

#[test]
fn delay_menu() {
    let choices = delay_choices_ms();
    assert_eq!(choices, vec![0, 300, 1000, 2000, 3000]);
    let labels: Vec<String> = choices.iter().map(|&ms| delay_choice_label(ms)).collect();
    assert_eq!(labels, vec!["0ms (Fastest)", "300ms", "1000ms", "2000ms", "3000ms"]);
    assert_eq!(delay_checks(&choices, 1000), vec![false, false, true, false, false]);
    assert_eq!(delay_checks(&choices, 1234), vec![false; 5]);
}
