use doctrine::close_gate::{change_slice_status, close_gate, undischarged, TrunkState};
use doctrine::slice::{RecDoc, RecMeta, StatusDelta};

fn rec(id: u32, mv: &str, deltas: &[(&str, &str, &str)], evidence: &[&str]) -> RecDoc {
    RecDoc {
        id,
        slug: format!("rec-{id}"),
        title: format!("rec {id}"),
        rec: RecMeta { rec_move: mv.to_owned(), owning_slice: Some("SL-004".to_owned()), decision_ref: None },
        status_delta: deltas
            .iter()
            .map(|(r, f, t)| StatusDelta { requirement: (*r).to_owned(), from: (*f).to_owned(), to: (*t).to_owned() })
            .collect(),
        evidence_ref: evidence.iter().map(|e| (*e).to_owned()).collect(),
    }
}

fn strings(xs: &[&str]) -> Vec<String> {
    xs.iter().map(|s| (*s).to_owned()).collect()
}

#[test]
fn blockers_refuse_either_seam_crossing_first() {
    let blockers = strings(&["RV-002/F-1", "RV-003/F-2"]);
    let err = close_gate(4, "audit", "reconcile", &blockers, &vec![], &TrunkState::NotDispatched).unwrap_err();
    assert_eq!(
        err,
        "slice SL-004 → reconcile: refused — unresolved blocker review finding(s): RV-002/F-1, RV-003/F-2 \
         (resolve via `review verify`/`review withdraw`, then retry)"
    );
    let err = close_gate(4, "reconcile", "done", &blockers, &strings(&["REQ-001"]), &TrunkState::Blocked("x".into()))
        .unwrap_err();
    assert!(err.contains("unresolved blocker"), "{err}");
}

#[test]
fn blockers_do_not_gate_a_move_off_the_seam() {
    let blockers = strings(&["RV-002/F-1"]);
    assert!(close_gate(4, "started", "audit", &blockers, &vec![], &TrunkState::NotDispatched).is_ok());
}

#[test]
fn undischarged_drift_refuses_only_reconcile_to_done() {
    let req = strings(&["REQ-001", "REQ-007"]);
    let err = close_gate(4, "reconcile", "done", &vec![], &req, &TrunkState::Integrated).unwrap_err();
    assert_eq!(
        err,
        "slice SL-004 → done: refused — undischarged residual drift on requirement(s): REQ-001, REQ-007 \
         (reconcile each via an `accept` REC whose evidence covers the current drift, or resolve the drift, then retry)"
    );
    assert!(close_gate(4, "audit", "reconcile", &vec![], &req, &TrunkState::Integrated).is_ok());
}

#[test]
fn trunk_integration_refuses_last() {
    let blocked = TrunkState::Blocked("branch not merged".into());
    let err = close_gate(4, "reconcile", "done", &vec![], &vec![], &blocked).unwrap_err();
    assert_eq!(
        err,
        "slice SL-004 → done: refused — dispatched code not integrated to trunk: branch not merged \
         (run close step-3a `dispatch sync --integrate`, verify, retry)"
    );
    assert!(close_gate(4, "reconcile", "done", &vec![], &vec![], &TrunkState::Integrated).is_ok());
    assert!(close_gate(4, "reconcile", "done", &vec![], &vec![], &TrunkState::NotDispatched).is_ok());
}

#[test]
fn undischarged_keeps_drifted_requirements_no_latest_accept_covers() {
    let gate = strings(&["REQ-001", "REQ-002", "REQ-003", "REQ-004"]);
    let drifted = vec![true, true, false, true];
    let recs = vec![
        rec(1, "accept", &[("REQ-001", "pending", "active")], &["VT-1"]),
        rec(2, "accept", &[("REQ-002", "pending", "active")], &["VT-9"]),
        rec(3, "reject", &[("REQ-004", "pending", "active")], &["VT-1"]),
    ];
    let authored = strings(&["active", "active", "active", "active"]);
    let residual = vec![strings(&["VT-1"]), strings(&["VT-1"]), strings(&[]), strings(&["VT-1"])];
    assert_eq!(undischarged(&gate, &drifted, &recs, &authored, &residual), strings(&["REQ-002", "REQ-004"]));
}

#[test]
fn undischarged_reads_the_latest_owning_record() {
    let gate = strings(&["REQ-001"]);
    let recs = vec![
        rec(5, "reject", &[("REQ-001", "pending", "active")], &["VT-1"]),
        rec(2, "accept", &[("REQ-001", "pending", "active")], &["VT-1"]),
    ];
    let out = undischarged(&gate, &vec![true], &recs, &strings(&["active"]), &vec![strings(&["VT-1"])]);
    assert_eq!(out, strings(&["REQ-001"]));
}

#[test]
fn change_slice_status_gates_then_writes() {
    let text = "id = 4\nstatus = \"reconcile\"\nupdated = \"2026-01-01\"\n\n[relationships]\nx = 1\n";
    let mut doc = text.parse::<toml_edit::DocumentMut>().unwrap();
    let err = change_slice_status(&mut doc, 4, "reconcile", "done", "2026-06-01", &vec![], &strings(&["REQ-001"]),
        &TrunkState::NotDispatched)
    .unwrap_err();
    assert!(err.contains("undischarged"), "{err}");
    assert_eq!(doc.to_string(), text);
    let wrote = change_slice_status(&mut doc, 4, "reconcile", "done", "2026-06-01", &vec![], &vec![],
        &TrunkState::Integrated)
    .unwrap();
    assert!(wrote);
    let out = doc.to_string();
    assert!(out.contains("status = \"done\""), "{out}");
    assert!(out.contains("updated = \"2026-06-01\""), "{out}");
    assert!(out.contains("[relationships]\nx = 1"), "{out}");
}
