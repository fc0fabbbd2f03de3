use auto_mac_layout::monitor::{
    fingerprint_from_displays, fingerprint_to_summary, get_display_summary, DisplayInfo,
};
use auto_mac_layout::sync::is_configuration_complete;

fn display(id: u32, w: u64, h: u64, x: i64, y: i64) -> DisplayInfo {
    DisplayInfo {
        id,
        vendor: 1552,
        model: 41_012,
        serial: 0,
        pixels_wide: w,
        pixels_high: h,
        origin_x: x,
        origin_y: y,
    }
}

#[test]
fn fingerprint_lists_sorted_parts() {
    let ds = vec![display(2, 2560, 1440, 1440, 0), display(1, 1440, 900, 0, -200)];
    let fp = fingerprint_from_displays(1, &ds);
    assert_eq!(
        fp,
        "main=1|displays=2|id=1:vendor=1552:model=41012:serial=0:1440x900@0,-200;id=2:vendor=1552:model=41012:serial=0:2560x1440@1440,0"
    );
}

#[test]
fn fingerprint_of_one_display() {
    let ds = vec![DisplayInfo {
        id: 69_733_382,
        vendor: 1552,
        model: 41_124,
        serial: 4_251_086_178,
        pixels_wide: 3024,
        pixels_high: 1964,
        origin_x: 0,
        origin_y: 0,
    }];
    assert_eq!(
        fingerprint_from_displays(69_733_382, &ds),
        "main=69733382|displays=1|id=69733382:vendor=1552:model=41124:serial=4251086178:3024x1964@0,0"
    );
}

#[test]
fn fingerprint_of_no_display() {
    assert_eq!(fingerprint_from_displays(7, &vec![]), "main=7|displays=0|");
}

#[test]
fn fingerprint_extreme_origins() {
    let ds = vec![display(0, 0, 0, i64::MIN, i64::MAX)];
    assert_eq!(
        fingerprint_from_displays(u32::MAX, &ds),
        "main=4294967295|displays=1|id=0:vendor=1552:model=41012:serial=0:0x0@-9223372036854775808,9223372036854775807"
    );
}

#[test]
fn fingerprint_does_not_depend_on_listing_order() {
    let a = display(5, 1920, 1080, -1920, 0);
    let b = display(3, 2560, 1440, 0, 0);
    let c = display(9, 1280, 1024, 2560, 100);
    let fp1 = fingerprint_from_displays(3, &vec![a, b, c]);
    let fp2 = fingerprint_from_displays(3, &vec![c, a, b]);
    let fp3 = fingerprint_from_displays(3, &vec![b, c, a]);
    assert_eq!(fp1, fp2);
    assert_eq!(fp1, fp3);
}

#[test]
fn main_display_changes_fingerprint() {
    let a = display(5, 1920, 1080, 0, 0);
    let b = display(3, 2560, 1440, 1920, 0);
    assert_ne!(
        fingerprint_from_displays(3, &vec![a, b]),
        fingerprint_from_displays(5, &vec![a, b])
    );
}

#[test]
fn summary_of_fingerprint_round_trip() {
    let ds = vec![display(2, 2560, 1440, 1440, 0), display(1, 1440, 900, 0, -200)];
    let fp = fingerprint_from_displays(1, &ds);
    assert_eq!(fingerprint_to_summary(&fp), "2 displays: 1440×900 + 2560×1440");
}

#[test]
fn summary_of_single_display_fingerprint() {
    let ds = vec![display(1, 2560, 1600, 0, 0)];
    let fp = fingerprint_from_displays(1, &ds);
    assert_eq!(fingerprint_to_summary(&fp), "1 display: 2560×1600");
}

#[test]
fn summary_of_empty_fingerprint_is_unknown() {
    let fp = fingerprint_from_displays(1, &vec![]);
    assert_eq!(fingerprint_to_summary(&fp), "Unknown");
}

#[test]
fn summary_of_malformed_fingerprints() {
    assert_eq!(fingerprint_to_summary(""), "Unknown");
    assert_eq!(fingerprint_to_summary("garbage"), "Unknown");
    assert_eq!(fingerprint_to_summary("main=1|count=2|a"), "Unknown");
    assert_eq!(fingerprint_to_summary("main=1|displays=x|a"), "Unknown");
    assert_eq!(fingerprint_to_summary("main=1|displays=-1|a"), "Unknown");
    assert_eq!(
        fingerprint_to_summary("main=1|displays=99999999999999999999999|a"),
        "Unknown"
    );
}

#[test]
fn summary_uses_stated_count_and_raw_parts() {
    assert_eq!(fingerprint_to_summary("main=1|displays=1"), "1 display: ");
    assert_eq!(fingerprint_to_summary("main=1|displays=+3|x"), "3 displays: ×");
    assert_eq!(fingerprint_to_summary("main=1|displays=2|a;b"), "2 displays: a + b");
    assert_eq!(
        fingerprint_to_summary("main=1|displays=2|p:q:800x600@1,2|tail"),
        "2 displays: 800×600"
    );
    assert_eq!(fingerprint_to_summary("main=1|displays=1|a:b@c:d"), "1 display: d");
}

#[test]
fn display_summary_examples() {
    let one = vec![display(1, 2560, 1600, 0, 0)];
    assert_eq!(get_display_summary(Some(&one)), "1 display: 2560×1600");
    let two = vec![display(1, 1440, 900, 0, 0), display(2, 2560, 1440, 1440, 0)];
    assert_eq!(get_display_summary(Some(&two)), "2 displays: 1440×900 + 2560×1440");
    assert_eq!(get_display_summary(Some(&vec![])), "0 displays: ");
    assert_eq!(get_display_summary(None), "Unknown display configuration");
}

#[test]
fn reconfiguration_flags() {
    assert!(is_configuration_complete(0));
    assert!(!is_configuration_complete(1));
    assert!(is_configuration_complete(2));
    assert!(!is_configuration_complete(3));
    assert!(is_configuration_complete(0x10));
}
