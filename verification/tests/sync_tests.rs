use auto_mac_layout::sync::{desktop_changed, desktop_items_signature, SyncScheduler};

#[test]
fn debounce_only_latest_run_proceeds() {
    let mut s = SyncScheduler::new(1000);
    let (t1, d1) = s.schedule();
    assert_eq!(d1, 1000);
    assert!(s.is_latest(t1));
    s.set_debounce_ms(300);
    assert!(s.is_latest(t1));
    let (t2, d2) = s.schedule();
    assert_eq!(d2, 300);
    assert!(!s.is_latest(t1));
    assert!(s.is_latest(t2));
}

#[test]
fn desktop_signature_sorts_names() {
    let names = vec!["b.txt".to_string(), "A.png".to_string(), "a.png".to_string()];
    assert_eq!(desktop_items_signature(&names), "A.png\na.png\nb.txt");
    let reordered = vec!["a.png".to_string(), "b.txt".to_string(), "A.png".to_string()];
    assert_eq!(desktop_items_signature(&reordered), desktop_items_signature(&names));
    assert_eq!(desktop_items_signature(&vec![]), "");
}

#[test]
fn desktop_change_detection() {
    let a = Some("x\ny".to_string());
    let b = Some("x".to_string());
    assert!(!desktop_changed(&a, &a.clone()));
    assert!(desktop_changed(&a, &b));
    assert!(desktop_changed(&None, &b));
    assert!(desktop_changed(&a, &None));
    assert!(!desktop_changed(&None, &None));
}
