use doctrine::listing::status_selected;
use doctrine::req_list::{kept_roster, render_req_list, req_json_row, req_list_table, roster_row, ReqListRow};
use doctrine::spec::SPEC_HIDDEN;
use doctrine::requirement::{ReqKind, ReqStatus};

fn roster() -> Vec<(ReqListRow, bool)> {
    vec![
        (roster_row("REQ-001", "FR-001", &Ok((ReqKind::Functional, ReqStatus::Active))), true),
        (roster_row("REQ-099", "FR-099", &Err("requirement REQ-099 not found".to_string())), false),
    ]
}

#[test]
fn req_list_is_authored_columns_only() {
    let rows: Vec<ReqListRow> = roster().into_iter().take(1).map(|(r, _)| r).collect();
    let out = render_req_list(&rows, None).unwrap();
    assert!(out.starts_with("id"), "{out}");
    assert!(out.lines().next().unwrap().contains("label"), "{out}");
    assert!(out.contains("kind") && out.contains("status"), "{out}");
    assert!(out.contains("REQ-001") && out.contains("FR-001"), "{out}");
    assert!(out.contains("functional") && out.contains("active"), "{out}");
    for forbidden in ["observed", "verdict", "coverage", "verified"] {
        assert!(!out.contains(forbidden), "{out}");
    }
}

#[test]
fn req_list_dangling_member_carries_the_load_error() {
    let rows = roster();
    assert_eq!(rows[1].0.kind, "<load error: requirement REQ-099 not found>");
    assert_eq!(rows[1].0.status, rows[1].0.kind);
    let table: Vec<ReqListRow> = rows.iter().map(|(r, _)| r.clone()).collect();
    let out = render_req_list(&table, None).unwrap();
    assert!(out.contains("REQ-099") && out.contains("FR-099"), "{out}");
    assert!(out.contains("load error"), "{out}");
}

#[test]
fn req_list_json_marks_the_dangling_row() {
    let rows = roster();
    let ok = req_json_row(&rows[0].0, true);
    assert_eq!(ok.kind.as_deref(), Some("functional"));
    assert_eq!(ok.status.as_deref(), Some("active"));
    assert!(!ok.dangling);
    assert!(ok.load_error.is_none());
    let bad = req_json_row(&rows[1].0, false);
    assert!(bad.dangling);
    assert!(bad.kind.is_none() && bad.status.is_none());
    assert_eq!(bad.load_error.as_deref(), Some("<load error: requirement REQ-099 not found>"));
}

#[test]
fn req_list_status_filter_never_drops_a_dangling_row() {
    let rows = roster();
    let pending = vec!["pending".to_string()];
    let keep: Vec<bool> = rows.iter().map(|(r, _)| status_selected(&r.status, r.status == "superseded", false, &pending)).collect();
    let kept = kept_roster(&rows, &keep);
    assert_eq!(kept.len(), 1);
    assert_eq!(kept[0].id, "REQ-099");
}

#[test]
fn req_list_columns_project_and_unknown_column_errors() {
    let rows: Vec<ReqListRow> = roster().into_iter().map(|(r, _)| r).collect();
    let cols = vec!["id".to_string(), "label".to_string()];
    let out = render_req_list(&rows, Some(&cols)).unwrap();
    assert!(out.contains("REQ-001 │ FR-001"), "{out}");
    assert!(!out.contains("functional"), "{out}");
    let err = render_req_list(&rows, Some(&vec!["bogus".to_string()])).unwrap_err();
    assert_eq!(err, "unknown column `bogus` (known: id, label, kind, status)");
}

#[test]
fn req_list_empty_roster_is_empty() {
    assert_eq!(render_req_list(&Vec::new(), None).unwrap(), "");
}

#[test]
fn status_selection_reveals_the_hide_set_only_on_request() {
    let none: Vec<String> = Vec::new();
    assert!(!status_selected("abandoned", true, false, &none));
    assert!(status_selected("abandoned", true, true, &none));
    assert!(status_selected("proposed", false, false, &none));
    let asked = vec!["abandoned".to_string()];
    assert!(status_selected("abandoned", true, false, &asked));
    assert!(!status_selected("proposed", false, false, &asked));
}

#[test]
fn req_list_table_checks_the_status_vocabulary_first() {
    let rows = roster();
    let known = ["pending", "active"];
    let err = req_list_table(&rows, &known, &SPEC_HIDDEN, &vec!["bogus".to_string()], false, None).unwrap_err();
    assert_eq!(err, "unknown status `bogus` (known: pending, active)");
    let out = req_list_table(&rows, &known, &SPEC_HIDDEN, &vec!["pending".to_string()], false, None).unwrap();
    assert!(!out.contains("REQ-001"), "{out}");
    assert!(out.contains("REQ-099"), "{out}");
    let all = req_list_table(&rows, &known, &SPEC_HIDDEN, &Vec::new(), false, None).unwrap();
    assert!(all.contains("REQ-001") && all.contains("REQ-099"), "{all}");
}
