use auto_mac_layout::layout::LayoutStore;
use auto_mac_layout::sync::{
    action_of, delete_all_profiles, delete_profile, get_profile_count, outcome_message, plan_sync,
    save_captured, SyncOutcome, SyncPlan,
};
use auto_mac_layout::status::ActionKind;

#[test]
fn store_insert_get_remove() {
    let mut s: LayoutStore<u32> = LayoutStore::new();
    assert_eq!(s.len(), 0);
    s.insert("fp1".to_string(), vec![1, 2, 3]);
    s.insert("fp2".to_string(), vec![4]);
    assert_eq!(s.len(), 2);
    assert_eq!(s.get("fp1"), Some(&vec![1, 2, 3]));
    assert!(s.contains("fp2"));
    assert!(!s.contains("fp3"));
    s.insert("fp1".to_string(), vec![9]);
    assert_eq!(s.len(), 2);
    assert_eq!(s.get("fp1"), Some(&vec![9]));
    assert_eq!(s.remove("fp1"), Some(vec![9]));
    assert_eq!(s.remove("fp1"), None);
    assert_eq!(s.get("fp1"), None);
    assert_eq!(s.len(), 1);
    let keys: Vec<&String> = s.entries().iter().map(|(k, _)| k).collect();
    assert_eq!(keys, vec!["fp2"]);
    s.clear();
    assert_eq!(s.len(), 0);
}

#[test]
fn sync_restores_saved_layout() {
    let mut s: LayoutStore<u32> = LayoutStore::new();
    match plan_sync(&s, "fp", false) {
        SyncPlan::Capture { new_profile } => assert!(new_profile),
        SyncPlan::Restore(_) => panic!("nothing saved yet"),
    }
    let o = save_captured(&mut s, "fp".to_string(), vec![7, 8], true);
    assert_eq!(o, Some(SyncOutcome::NewProfileSaved(2)));
    match plan_sync(&s, "fp", false) {
        SyncPlan::Restore(v) => assert_eq!(v, &vec![7, 8]),
        SyncPlan::Capture { .. } => panic!("a layout is saved"),
    }
    match plan_sync(&s, "fp", true) {
        SyncPlan::Capture { new_profile } => assert!(!new_profile),
        SyncPlan::Restore(_) => panic!("a forced save captures"),
    }
    match plan_sync(&s, "other", false) {
        SyncPlan::Capture { new_profile } => assert!(new_profile),
        SyncPlan::Restore(_) => panic!("other arrangement has no profile"),
    }
}

#[test]
fn empty_capture_saves_nothing() {
    let mut s: LayoutStore<u32> = LayoutStore::new();
    s.insert("fp".to_string(), vec![1]);
    assert_eq!(save_captured(&mut s, "fp".to_string(), vec![], false), None);
    assert_eq!(s.get("fp"), Some(&vec![1]));
    assert_eq!(save_captured(&mut s, "fp".to_string(), vec![5, 6, 7], false), Some(SyncOutcome::Saved(3)));
    assert_eq!(s.get("fp"), Some(&vec![5, 6, 7]));
}

#[test]
fn profile_deletion() {
    let mut s: LayoutStore<u32> = LayoutStore::new();
    s.insert("a".to_string(), vec![1]);
    s.insert("b".to_string(), vec![2]);
    assert_eq!(get_profile_count(&s), 2);
    assert!(delete_profile(&mut s, "a"));
    assert!(!delete_profile(&mut s, "a"));
    assert_eq!(get_profile_count(&s), 1);
    match plan_sync(&s, "a", false) {
        SyncPlan::Capture { new_profile } => assert!(new_profile),
        SyncPlan::Restore(_) => panic!("deleted profile"),
    }
    delete_all_profiles(&mut s);
    assert_eq!(get_profile_count(&s), 0);
}

#[test]
fn outcome_messages() {
    assert_eq!(outcome_message(SyncOutcome::Saved(12)), "Layout saved — 12 icons captured");
    assert_eq!(outcome_message(SyncOutcome::Restored(3)), "Layout restored — 3 icons positioned");
    assert_eq!(
        outcome_message(SyncOutcome::NewProfileSaved(0)),
        "New display setup detected — 0 icons saved"
    );
    assert_eq!(outcome_message(SyncOutcome::Applied(40)), "Layout applied — 40 icons positioned");
    assert_eq!(
        outcome_message(SyncOutcome::NoLayoutForDisplay),
        "No saved layout found for current display setup"
    );
}

#[test]
fn outcome_actions() {
    assert_eq!(action_of(SyncOutcome::Saved(1)), Some((ActionKind::Saved, 1)));
    assert_eq!(action_of(SyncOutcome::Restored(2)), Some((ActionKind::Restored, 2)));
    assert_eq!(action_of(SyncOutcome::NewProfileSaved(3)), Some((ActionKind::NewProfileSaved, 3)));
    assert_eq!(action_of(SyncOutcome::Applied(4)), Some((ActionKind::Restored, 4)));
    assert_eq!(action_of(SyncOutcome::NoLayoutForDisplay), None);
}
