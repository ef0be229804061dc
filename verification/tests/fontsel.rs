use flipsaver::fontsel::{pick, system_candidates};

#[test]
fn prefers_wss_family_when_both_installed() {
    let c = pick(|_| true).unwrap();
    assert_eq!(c.family, "Helvetica LT Std Cond");
    assert!(!c.condensed);
}

#[test]
fn typographic_family_needs_condensed_stretch() {
    let c = pick(|c| c.family == "Helvetica LT Std").unwrap();
    assert_eq!(c.family, "Helvetica LT Std");
    assert!(c.condensed);
}

#[test]
fn none_installed_falls_back() {
    assert!(pick(|_| false).is_none());
}

#[test]
fn candidates_in_preference_order() {
    let c = system_candidates();
    assert_eq!(c[0].family, "Helvetica LT Std Cond");
    assert_eq!(c[1].family, "Helvetica LT Std");
}
