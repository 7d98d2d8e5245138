use doctrine::slice_status::set_slice_status;

const SLICE: &str = "# Slice SL-001 — authored metadata\nid = 1\nslug = \"s\"\ntitle = \"S\"\nstatus = \"proposed\"\ncreated = \"2026-06-04\"\nupdated = \"2026-06-04\"\n\n[relationships]\nsupersedes = []\n";

fn doc() -> toml_edit::DocumentMut {
    SLICE.parse::<toml_edit::DocumentMut>().unwrap()
}

#[test]
fn set_slice_status_advances_and_preserves_comments_and_relationships() {
    let mut d = doc();
    assert_eq!(set_slice_status(&mut d, 1, "proposed", "design", "2099-01-01"), Ok(true));
    let after = d.to_string();
    assert!(after.contains("status = \"design\""), "status written: {after}");
    assert!(after.contains("updated = \"2099-01-01\""), "date stamped: {after}");
    assert!(after.contains("[relationships]"), "relationships survive: {after}");
    assert!(after.contains("# Slice SL-001"), "comments survive: {after}");
}

#[test]
fn set_slice_status_noop_holds_content() {
    let mut d = doc();
    assert_eq!(set_slice_status(&mut d, 1, "proposed", "proposed", "2099-01-01"), Ok(false));
    assert_eq!(d.to_string(), SLICE, "content held");
}

#[test]
fn set_slice_status_refuses_from_terminal() {
    for from in ["done", "abandoned"] {
        let mut d = doc();
        let err = set_slice_status(&mut d, 1, from, "design", "x").unwrap_err();
        assert!(err.contains("terminal"), "{from}: {err}");
        assert_eq!(d.to_string(), SLICE, "untouched");
    }
}

#[test]
fn set_slice_status_refuses_seam_breach() {
    let mut d = doc();
    let err = set_slice_status(&mut d, 1, "started", "done", "x").unwrap_err();
    assert!(err.contains("closure seam"), "skip-to-done refused: {err}");
    let err2 = set_slice_status(&mut d, 1, "design", "reconcile", "x").unwrap_err();
    assert!(err2.contains("closure seam"), "non-audit → reconcile refused: {err2}");
    assert_eq!(d.to_string(), SLICE, "untouched");
}

#[test]
fn set_slice_status_seam_breach_from_a_drifted_source() {
    let mut d = doc();
    let err = set_slice_status(&mut d, 1, "bogus", "done", "x").unwrap_err();
    assert!(err.contains("closure seam"), "drifted → done refused: {err}");
}

#[test]
fn set_slice_status_refuses_malformed_toml() {
    let text = "id = 1\nslug = \"s\"\ntitle = \"S\"\nstatus = \"started\"\n";
    let mut d = text.parse::<toml_edit::DocumentMut>().unwrap();
    let err = set_slice_status(&mut d, 1, "started", "audit", "x").unwrap_err();
    assert!(err.contains("malformed"), "missing key refused: {err}");
    assert_eq!(
        err,
        "malformed slice 001: missing `status`/`updated` — restore the missing keys and retry; the file is left untouched"
    );
    assert_eq!(d.to_string(), text);
}
