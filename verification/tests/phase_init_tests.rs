use doctrine::phase_init::{orphan_stems, plan_phase_stems};
use doctrine::sorted::SortedSet;

fn set_of(items: &[&str]) -> SortedSet {
    let mut s = SortedSet::new();
    for item in items {
        s.insert(item.to_string());
    }
    s
}

#[test]
fn every_planned_id_gets_its_stem() {
    let ids = vec!["PHASE-01".to_string(), "PHASE-02".to_string(), "PHASE-137".to_string()];
    assert_eq!(plan_phase_stems(&ids).unwrap(), vec!["phase-01", "phase-02", "phase-137"]);
}

#[test]
fn one_malformed_id_fails_the_whole_plan() {
    let ids = vec!["PHASE-01".to_string(), "PHASE-1a".to_string(), "oops".to_string()];
    assert_eq!(plan_phase_stems(&ids).unwrap_err(), "Phase id \"PHASE-1a\" must match PHASE-<digits>");
}

#[test]
fn an_empty_plan_has_no_stems() {
    assert_eq!(plan_phase_stems(&Vec::new()).unwrap(), Vec::<String>::new());
}

#[test]
fn orphans_are_the_tracked_stems_the_plan_left() {
    let existing = set_of(&["phase-03", "phase-01", "phase-02"]);
    let planned = set_of(&["phase-02"]);
    assert_eq!(orphan_stems(&existing, &planned), vec!["phase-01", "phase-03"]);
    assert_eq!(orphan_stems(&existing, &existing), Vec::<String>::new());
}
