use doctrine::listing::{select_listed, validate_statuses, Meta};
use doctrine::slice::{SLICE_HIDDEN, SLICE_STATUSES};
use doctrine::spec::{SPEC_HIDDEN, SPEC_STATUSES};

fn meta(id: u32, status: &str) -> Meta {
    Meta { id, slug: format!("s{id}"), title: format!("S{id}"), status: status.to_string(), tags: Vec::new() }
}

fn strings(xs: &[&str]) -> Vec<String> {
    xs.iter().map(|s| (*s).to_string()).collect()
}

#[test]
fn validate_statuses_rejects_an_unknown_status_naming_it_and_the_known_set() {
    let err = validate_statuses(&strings(&["proposed", "bogus"]), &SLICE_STATUSES).unwrap_err();
    assert_eq!(
        err,
        "unknown status `bogus` (known: proposed, design, plan, ready, started, audit, reconcile, done, abandoned)"
    );
    assert!(err.contains("abandoned"));
}

#[test]
fn validate_statuses_accepts_every_known_status_and_none() {
    for s in SLICE_STATUSES {
        assert!(validate_statuses(&strings(&[s]), &SLICE_STATUSES).is_ok(), "{s}");
    }
    assert!(validate_statuses(&Vec::new(), &SLICE_STATUSES).is_ok());
    assert!(validate_statuses(&strings(&["superseded"]), &SLICE_STATUSES).is_err());
    assert!(validate_statuses(&strings(&["superseded"]), &SPEC_STATUSES).is_ok());
}

#[test]
fn select_listed_sorts_by_id_and_hides_by_default() {
    let metas = vec![meta(3, "proposed"), meta(1, "done"), meta(2, "started"), meta(4, "abandoned")];
    let ids: Vec<u32> = select_listed(&metas, &SLICE_HIDDEN, false, &Vec::new()).iter().map(|m| m.id).collect();
    assert_eq!(ids, vec![2, 3]);
    let all: Vec<u32> = select_listed(&metas, &SLICE_HIDDEN, true, &Vec::new()).iter().map(|m| m.id).collect();
    assert_eq!(all, vec![1, 2, 3, 4]);
    let asked: Vec<u32> =
        select_listed(&metas, &SLICE_HIDDEN, false, &strings(&["abandoned"])).iter().map(|m| m.id).collect();
    assert_eq!(asked, vec![4]);
}

#[test]
fn select_listed_hides_superseded_specs() {
    let metas = vec![meta(2, "superseded"), meta(1, "draft")];
    let ids: Vec<u32> = select_listed(&metas, &SPEC_HIDDEN, false, &Vec::new()).iter().map(|m| m.id).collect();
    assert_eq!(ids, vec![1]);
}
