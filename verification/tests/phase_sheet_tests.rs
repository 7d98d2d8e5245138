use doctrine::phase_sheet::{apply_phase_status, SheetError};
use doctrine::state::{render_tracking, PhaseStatus};

fn sheet() -> toml_edit::DocumentMut {
    render_tracking("PHASE-01").parse::<toml_edit::DocumentMut>().unwrap()
}

fn reread(doc: &toml_edit::DocumentMut) -> toml_edit::DocumentMut {
    doc.to_string().parse::<toml_edit::DocumentMut>().unwrap()
}

fn field(doc: &toml_edit::DocumentMut, key: &str) -> Option<String> {
    doc.get(key).and_then(toml_edit::Item::as_str).map(String::from)
}

#[test]
fn phase_status_edit_sets_fields_and_appends_progress() {
    let mut doc = sheet();
    apply_phase_status(&mut doc, PhaseStatus::InProgress, Some("kickoff"), "2026-06-04T10:00:00Z").unwrap();
    let doc = reread(&doc);
    assert_eq!(field(&doc, "status").as_deref(), Some("in_progress"));
    assert_eq!(field(&doc, "started").as_deref(), Some("2026-06-04T10:00:00Z"));
    assert_eq!(field(&doc, "last_updated").as_deref(), Some("2026-06-04T10:00:00Z"));
    assert_eq!(field(&doc, "completed").as_deref(), Some(""));
    let progress = doc.get("progress").and_then(toml_edit::Item::as_array_of_tables).unwrap();
    assert_eq!(progress.len(), 1);
    let row = progress.get(0).unwrap();
    assert_eq!(row.get("status").and_then(toml_edit::Item::as_str), Some("in_progress"));
    assert_eq!(row.get("note").and_then(toml_edit::Item::as_str), Some("kickoff"));
    assert_eq!(row.get("timestamp").and_then(toml_edit::Item::as_str), Some("2026-06-04T10:00:00Z"));
}

#[test]
fn phase_status_edit_stamps_started_once_and_completed_on_completion() {
    let mut doc = sheet();
    apply_phase_status(&mut doc, PhaseStatus::InProgress, None, "T1").unwrap();
    apply_phase_status(&mut doc, PhaseStatus::InProgress, None, "T2").unwrap();
    apply_phase_status(&mut doc, PhaseStatus::Completed, None, "T3").unwrap();
    let doc = reread(&doc);
    assert_eq!(field(&doc, "started").as_deref(), Some("T1"), "started stamped once, not overwritten");
    assert_eq!(field(&doc, "completed").as_deref(), Some("T3"));
    assert_eq!(field(&doc, "status").as_deref(), Some("completed"));
    assert_eq!(doc.get("progress").and_then(toml_edit::Item::as_array_of_tables).unwrap().len(), 3);
}

#[test]
fn phase_status_edit_keeps_the_first_completion_stamp() {
    let mut doc = sheet();
    apply_phase_status(&mut doc, PhaseStatus::Completed, None, "T1").unwrap();
    apply_phase_status(&mut doc, PhaseStatus::Completed, None, "T2").unwrap();
    assert_eq!(field(&doc, "completed").as_deref(), Some("T1"));
    assert_eq!(field(&doc, "last_updated").as_deref(), Some("T2"));
}

#[test]
fn phase_status_edit_clears_completed_on_reopen() {
    let mut doc = sheet();
    apply_phase_status(&mut doc, PhaseStatus::Completed, None, "T1").unwrap();
    apply_phase_status(&mut doc, PhaseStatus::InProgress, None, "T2").unwrap();
    let doc = reread(&doc);
    assert_eq!(field(&doc, "status").as_deref(), Some("in_progress"));
    assert_eq!(field(&doc, "completed").as_deref(), Some(""), "reopen clears the stale completion stamp");
}

#[test]
fn phase_status_edit_preserves_comments_and_unknown_keys() {
    let text = format!("{}custom = \"keep me\"\n", render_tracking("PHASE-01"));
    let mut doc = text.parse::<toml_edit::DocumentMut>().unwrap();
    apply_phase_status(&mut doc, PhaseStatus::Blocked, Some("waiting"), "T1").unwrap();
    let out = doc.to_string();
    assert!(out.contains("# Append-only runtime progress log"), "comment kept: {out}");
    assert!(out.contains("custom = \"keep me\""), "unknown key kept: {out}");
    assert!(out.contains("status = \"blocked\"") || out.contains("status  = \"blocked\""), "{out}");
}

#[test]
fn phase_status_edit_refuses_a_progress_key_that_is_not_an_array_of_tables() {
    let mut doc = "status = \"planned\"\nprogress = 3\n".parse::<toml_edit::DocumentMut>().unwrap();
    let before = doc.to_string();
    let err = apply_phase_status(&mut doc, PhaseStatus::Completed, None, "T1").unwrap_err();
    assert_eq!(err, SheetError::ProgressNotTableArray);
    assert_eq!(err.message(), "`progress` exists but is not an array of tables");
    assert_eq!(doc.to_string(), before);
}
