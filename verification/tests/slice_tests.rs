use doctrine::entity::{Artifact, ScaffoldCtx};
use doctrine::lifecycle::{classify, crosses_closure_seam, is_transition_terminal, Transition};
use doctrine::listing::Meta;
use doctrine::slice::{
    decorated_status, design_scaffold, gate_requirement_set, is_divergent, is_drifted, is_hidden, is_terminal_status,
    json_rows, key, latest_owning_rec_for, notes_scaffold, parse_ref, phases_cell, plan_scaffold, rec_discharges,
    render_design, render_md, render_notes, render_plan_md, render_plan_toml, render_toml, serde_rename_kebab,
    slice_scaffold, slice_toml_path, status_line, transition_label, Gate, RecDoc, RecMeta, SelectorIntent,
    SliceStatus, StatusDelta, SLICE_STATUSES,
};
use doctrine::slice_list::render_slice_list;
use doctrine::state::PhaseRollup;

fn rollup(completed: u32, planned: u32) -> PhaseRollup {
    PhaseRollup { completed, planned, ..Default::default() }
}

fn meta(id: u32, status: &str, slug: &str, title: &str) -> Meta {
    Meta { id, slug: slug.to_string(), title: title.to_string(), status: status.to_string(), tags: Vec::new() }
}

#[test]
fn divergence_flags_the_two_unambiguous_mismatches() {
    assert!(is_divergent("done", Some(&rollup(2, 4))));
    assert!(is_divergent("proposed", Some(&rollup(6, 0))));
}

#[test]
fn divergence_is_quiet_when_consistent_untracked_or_anomalous() {
    assert!(!is_divergent("done", Some(&rollup(6, 0))));
    assert!(!is_divergent("proposed", Some(&rollup(2, 4))));
    assert!(!is_divergent("done", None));
    let anomalous = PhaseRollup { completed: 2, planned: 3, unknown: 1, ..Default::default() };
    assert!(!is_divergent("done", Some(&anomalous)));
}

#[test]
fn phases_cell_renders_markers() {
    assert_eq!(phases_cell(None), "—");
    assert_eq!(phases_cell(Some(&rollup(4, 2))), "4/6");
    let blocked = PhaseRollup { completed: 2, planned: 3, blocked: 1, ..Default::default() };
    assert_eq!(phases_cell(Some(&blocked)), "2/6 !1");
    let anomalous = PhaseRollup { completed: 3, planned: 2, unknown: 1, ..Default::default() };
    assert_eq!(phases_cell(Some(&anomalous)), "3/6 ?1");
}

#[test]
fn decorated_status_composes_drift_and_divergence() {
    assert_eq!(decorated_status("proposed", None), "proposed");
    assert_eq!(decorated_status("done", Some(&rollup(2, 4))), "done ⚠");
    assert_eq!(decorated_status("bogus", None), "bogus?");
    assert_eq!(decorated_status("bogus", Some(&rollup(6, 0))), "bogus? ⚠");
    assert_eq!(decorated_status("abandoned", Some(&rollup(2, 4))), "abandoned");
}

#[test]
fn is_drifted_flags_only_out_of_vocab() {
    for s in SLICE_STATUSES {
        assert!(!is_drifted(s), "in-vocab `{s}` is not drift");
    }
    assert!(is_drifted("bogus"));
    assert!(is_drifted("superseded"));
}

#[test]
fn is_hidden_is_the_terminal_presentation_set_not_divergence() {
    assert!(is_hidden("done"));
    assert!(is_hidden("abandoned"));
    assert!(!is_hidden("proposed"));
    assert!(!is_hidden("bogus"));
    assert!(is_terminal_status("done"));
    assert!(!is_terminal_status("abandoned"));
}

const SLICE_MD: &str = "# {{title}}\n\n## Scope\n";
const DESIGN_MD: &str = "# Design {{ref}}: {{title}}\n";
const PLAN_MD: &str = "# Implementation Plan {{ref}}: {{title}}\n";
const PLAN_TOML: &str = "schema  = \"doctrine.plan.overview\"\nversion = 1\nslice   = \"{{ref}}\"\n";
const SLICE_TOML: &str = "id = {{id}}\nslug = {{slug}}\ntitle = {{title}}\nstatus = \"proposed\"\ncreated = \"{{date}}\"\nupdated = \"{{date}}\"\n";

#[test]
fn render_md_substitutes_title() {
    let body = render_md(SLICE_MD, "My Title");
    assert!(body.contains("My Title"));
    assert!(!body.contains("{{title}}"));
}

#[test]
fn render_design_substitutes_ref_and_title() {
    let body = render_design(DESIGN_MD, "SL-003", "My Title");
    assert!(body.contains("Design SL-003: My Title"));
    assert!(!body.contains("{{ref}}"));
    assert!(!body.contains("{{title}}"));
}

#[test]
fn render_toml_fills_every_placeholder() {
    let body = render_toml(SLICE_TOML, 7, "my-slug", "My Title", "2026-06-03");
    assert_eq!(
        body,
        "id = 7\nslug = \"my-slug\"\ntitle = \"My Title\"\nstatus = \"proposed\"\ncreated = \"2026-06-03\"\nupdated = \"2026-06-03\"\n"
    );
}

#[test]
fn render_toml_escapes_a_hostile_title() {
    let body = render_toml("title = {{title}}\n", 1, "s", "a\"b\\c\nd", "d");
    let parsed: toml::Value = toml::from_str(&body).unwrap();
    assert_eq!(parsed["title"].as_str(), Some("a\"b\\c\nd"));
}

#[test]
fn slice_scaffold_lays_out_two_files_and_a_symlink() {
    let ctx = ScaffoldCtx { id: 3, canonical: "SL-003", slug: "vendor-skills", title: "Vendor skills", date: "2026-06-03" };
    let fileset = slice_scaffold(&ctx, SLICE_TOML, SLICE_MD);
    assert_eq!(fileset.len(), 3);
    assert!(matches!(&fileset[0],
        Artifact::File { rel_path, body }
        if rel_path == "003/slice-003.toml" && body.contains("2026-06-03")));
    assert!(matches!(&fileset[1],
        Artifact::File { rel_path, body }
        if rel_path == "003/slice-003.md" && body.contains("Vendor skills")));
    assert!(matches!(&fileset[2],
        Artifact::Symlink { rel_path, target }
        if rel_path == "003-vendor-skills" && target == "003"));
}

#[test]
fn render_plan_md_substitutes_ref_and_title() {
    let body = render_plan_md(PLAN_MD, "SL-004", "My Title");
    assert!(body.contains("Implementation Plan SL-004: My Title"));
    assert!(!body.contains("{{ref}}"));
    assert!(!body.contains("{{title}}"));
}

#[test]
fn render_plan_toml_substitutes_ref() {
    let body = render_plan_toml(PLAN_TOML, "SL-004");
    assert!(body.contains("slice   = \"SL-004\""));
    assert!(!body.contains("{{ref}}"));
}

#[test]
fn plan_scaffold_lays_out_toml_and_md() {
    let ctx = ScaffoldCtx { id: 4, canonical: "SL-004", slug: "", title: "Plan title", date: "2026-06-04" };
    let fileset = plan_scaffold(&ctx, PLAN_TOML, PLAN_MD);
    assert_eq!(fileset.len(), 2);
    assert!(matches!(&fileset[0],
        Artifact::File { rel_path, body }
        if rel_path == "004/plan.toml" && body.contains("SL-004")));
    assert!(matches!(&fileset[1],
        Artifact::File { rel_path, body }
        if rel_path == "004/plan.md" && body.contains("Plan title")));
}

#[test]
fn design_scaffold_is_a_single_file_no_symlink() {
    let ctx = ScaffoldCtx { id: 3, canonical: "SL-003", slug: "", title: "Vendor skills", date: "2026-06-03" };
    let fileset = design_scaffold(&ctx, DESIGN_MD);
    assert_eq!(fileset.len(), 1);
    assert!(matches!(&fileset[0],
        Artifact::File { rel_path, body }
        if rel_path == "003/design.md" && body.contains("Design SL-003: Vendor skills")));
}

#[test]
fn notes_scaffold_is_a_single_notes_file() {
    let ctx = ScaffoldCtx { id: 12, canonical: "SL-012", slug: "x", title: "Notes title", date: "2026-06-04" };
    let fileset = notes_scaffold(&ctx, "# Notes {{ref}}: {{title}}\n");
    assert_eq!(
        fileset,
        vec![Artifact::File { rel_path: "012/notes.md".to_string(), body: "# Notes SL-012: Notes title\n".to_string() }]
    );
    assert_eq!(render_notes("{{ref}}/{{title}}", "SL-1", "t"), "SL-1/t");
}

#[test]
fn slice_statuses_matches_the_spec_vocabulary() {
    assert_eq!(
        SLICE_STATUSES,
        ["proposed", "design", "plan", "ready", "started", "audit", "reconcile", "done", "abandoned"]
    );
}

#[test]
fn slice_parse_ref_accepts_prefixed_padded_and_bare_ids() {
    assert_eq!(parse_ref("SL-025").unwrap(), 25);
    assert_eq!(parse_ref("sl-25").unwrap(), 25);
    assert_eq!(parse_ref("25").unwrap(), 25);
    assert_eq!(parse_ref("002").unwrap(), 2);
    assert_eq!(parse_ref("Sl-25").unwrap(), 25);
    assert_eq!(parse_ref("sL-7").unwrap(), 7);
    assert!(parse_ref("nope").is_err());
    assert_eq!(parse_ref("nope").unwrap_err(), "not a slice reference: `nope` (expected `SL-025` or `25`)");
}

#[test]
fn classify_forward_chain_is_advance() {
    for (from, to) in
        [("proposed", "design"), ("design", "plan"), ("plan", "ready"), ("ready", "started"), ("started", "audit")]
    {
        assert_eq!(classify(from, to), Transition::Advance, "{from} → {to}");
    }
}

#[test]
fn classify_legit_closure_seam_path_is_advance() {
    assert_eq!(classify("audit", "reconcile"), Transition::Advance);
    assert_eq!(classify("reconcile", "done"), Transition::Advance);
}

#[test]
fn classify_named_back_edges() {
    for (from, to) in [("audit", "started"), ("audit", "design"), ("reconcile", "audit"), ("reconcile", "design")] {
        assert_eq!(classify(from, to), Transition::BackEdge, "{from} → {to}");
    }
}

#[test]
fn classify_abandon_from_each_non_terminal() {
    for from in ["proposed", "design", "plan", "ready", "started", "audit", "reconcile"] {
        assert_eq!(classify(from, "abandoned"), Transition::Abandon, "{from} → abandoned");
    }
}

#[test]
fn classify_noop_when_unchanged() {
    assert_eq!(classify("started", "started"), Transition::Noop);
    assert_eq!(classify("done", "done"), Transition::Noop);
}

#[test]
fn classify_from_terminal_refused() {
    for from in ["done", "abandoned"] {
        assert_eq!(classify(from, "design"), Transition::FromTerminal, "{from} → design");
    }
}

#[test]
fn classify_seam_breach_to_reconcile_from_non_audit() {
    for from in ["proposed", "design", "plan", "ready", "started"] {
        assert_eq!(classify(from, "reconcile"), Transition::SeamBreach, "{from} → reconcile");
    }
}

#[test]
fn classify_seam_breach_to_done_from_non_reconcile() {
    for from in ["proposed", "design", "plan", "ready", "started", "audit"] {
        assert_eq!(classify(from, "done"), Transition::SeamBreach, "{from} → done");
    }
}

#[test]
fn classify_seam_binds_even_from_a_drifted_source() {
    assert_eq!(classify("bogus", "reconcile"), Transition::SeamBreach);
    assert_eq!(classify("bogus", "done"), Transition::SeamBreach);
}

#[test]
fn classify_move_out_of_drift_is_skip_not_refused() {
    assert_eq!(classify("bogus", "started"), Transition::Skip);
}

#[test]
fn classify_non_chain_move_is_skip() {
    assert_eq!(classify("proposed", "started"), Transition::Skip);
    assert_eq!(classify("design", "started"), Transition::Skip);
}

#[test]
fn is_transition_terminal_is_a_distinct_third_predicate() {
    assert!(is_transition_terminal("done"));
    assert!(is_transition_terminal("abandoned"));
    assert!(!is_transition_terminal("started"));
    assert!(is_transition_terminal("abandoned") && !is_terminal_status("abandoned"));
    assert_eq!(is_transition_terminal("done"), is_hidden("done"));
}

#[test]
fn slice_status_enum_matches_the_vocabulary() {
    let variants = [
        SliceStatus::Proposed,
        SliceStatus::Design,
        SliceStatus::Plan,
        SliceStatus::Ready,
        SliceStatus::Started,
        SliceStatus::Audit,
        SliceStatus::Reconcile,
        SliceStatus::Done,
        SliceStatus::Abandoned,
    ];
    let from_variants: Vec<&str> = variants.iter().map(|v| v.as_str()).collect();
    assert_eq!(from_variants, SLICE_STATUSES.to_vec());
}

#[test]
fn status_line_carries_the_source_exit_posture() {
    let line = status_line("reconcile", "done", classify("reconcile", "done"), "self/gate", None);
    assert_eq!(line, "reconcile → done [advance] [self/gate]");
}

#[test]
fn status_line_appends_the_note_after_the_posture() {
    let line = status_line("started", "audit", classify("started", "audit"), "self/auto", Some("done impl"));
    assert_eq!(line, "started → audit [advance] [self/auto] — done impl");
}

#[test]
fn transition_labels_are_lower_case() {
    assert_eq!(transition_label(Transition::BackEdge), "back-edge");
    assert_eq!(transition_label(Transition::Noop), "no-op");
    assert_eq!(transition_label(Transition::SeamBreach), "seam-breach");
}

#[test]
fn vt4_crosses_closure_seam_is_only_the_two_terminal_advances() {
    assert!(crosses_closure_seam("audit", "reconcile"));
    assert!(crosses_closure_seam("reconcile", "done"));
    for (from, to) in [
        ("started", "audit"),
        ("ready", "started"),
        ("plan", "ready"),
        ("audit", "started"),
        ("reconcile", "audit"),
        ("started", "abandoned"),
        ("audit", "audit"),
    ] {
        assert!(!crosses_closure_seam(from, to), "{from} → {to} must NOT be a closure-seam crossing");
    }
}

fn rec(id: u32, mv: &str, deltas: &[(&str, &str, &str)], evidence: &[&str]) -> RecDoc {
    RecDoc {
        id,
        slug: format!("rec-{id}"),
        title: format!("rec {id}"),
        rec: RecMeta { rec_move: mv.to_owned(), owning_slice: Some("SL-001".to_owned()), decision_ref: None },
        status_delta: deltas
            .iter()
            .map(|(r, f, t)| StatusDelta { requirement: (*r).to_owned(), from: (*f).to_owned(), to: (*t).to_owned() })
            .collect(),
        evidence_ref: evidence.iter().map(|e| (*e).to_owned()).collect(),
    }
}

#[test]
fn multi_delta_rec_does_not_discharge_via_foreign_requirement() {
    let r = rec(1, "accept", &[("REQ-001", "pending", "active"), ("REQ-002", "active", "pending")], &[]);
    assert!(
        !rec_discharges(Some(&r), "REQ-001", "pending", &vec![]),
        "a foreign requirement's coinciding `to` laundered R1's drift"
    );
    let affirm = RecDoc {
        status_delta: vec![StatusDelta {
            requirement: "REQ-001".to_owned(),
            from: "pending".to_owned(),
            to: "pending".to_owned(),
        }],
        ..r
    };
    assert!(rec_discharges(Some(&affirm), "REQ-001", "pending", &vec![]));
}

#[test]
fn rec_discharges_needs_an_accept_and_covering_evidence() {
    let r = rec(1, "revise", &[("REQ-001", "pending", "pending")], &["k1"]);
    assert!(!rec_discharges(Some(&r), "REQ-001", "pending", &vec![]));
    let a = rec(1, "accept", &[("REQ-001", "pending", "pending")], &["k1"]);
    assert!(rec_discharges(Some(&a), "REQ-001", "pending", &vec!["k1".to_owned()]));
    assert!(!rec_discharges(Some(&a), "REQ-001", "pending", &vec!["k1".to_owned(), "k2".to_owned()]));
    assert!(!rec_discharges(None, "REQ-001", "pending", &vec![]));
}

#[test]
fn latest_owning_rec_is_the_highest_id_naming_the_requirement() {
    let recs = vec![
        rec(3, "accept", &[("REQ-001", "a", "b")], &[]),
        rec(9, "accept", &[("REQ-002", "a", "b")], &[]),
        rec(5, "accept", &[("REQ-001", "a", "b")], &[]),
        rec(2, "accept", &[("REQ-001", "a", "b")], &[]),
    ];
    assert_eq!(latest_owning_rec_for(&recs, "REQ-001").map(|r| r.id), Some(5));
    assert_eq!(latest_owning_rec_for(&recs, "REQ-002").map(|r| r.id), Some(9));
    assert!(latest_owning_rec_for(&recs, "REQ-003").is_none());
}

#[test]
fn gate_set_is_the_sorted_distinct_union() {
    let covered = vec!["REQ-003".to_owned(), "REQ-001".to_owned()];
    let declared = vec!["REQ-002".to_owned(), "REQ-003".to_owned()];
    let recs = vec![rec(1, "accept", &[("REQ-009", "a", "b"), ("REQ-001", "a", "b")], &[])];
    assert_eq!(
        gate_requirement_set(&covered, &declared, &recs),
        vec!["REQ-001".to_owned(), "REQ-002".to_owned(), "REQ-003".to_owned(), "REQ-009".to_owned()]
    );
}

#[test]
fn nf001_gate_destructure_is_exhaustive_and_facet_free() {
    let Gate { extra_reqs: _ } = Gate::default();
}

#[test]
fn slice_toml_path_is_under_the_padded_id() {
    assert_eq!(slice_toml_path(".doctrine/slice", 25), ".doctrine/slice/025/slice-025.toml");
}

#[test]
fn selector_intents_use_kebab_case() {
    assert_eq!(serde_rename_kebab(SelectorIntent::ScopeRelevant), "scope-relevant");
    assert_eq!(serde_rename_kebab(SelectorIntent::DesignTarget), "design-target");
}

#[test]
fn key_and_json_rows_project_the_listed_fields() {
    let m = meta(7, "done", "anchoring", "Anchoring");
    let k = key(&m);
    assert_eq!(k.canonical, "SL-007");
    assert_eq!(k.slug, "anchoring");
    let rows = json_rows(&vec![(m.clone(), Some(rollup(2, 4))), (meta(9, "proposed", "r", "R"), None)]);
    assert_eq!(rows[0].id, "SL-007");
    assert_eq!(rows[0].phases.map(|p| (p.completed, p.total, p.blocked)), Some((2, 6, 0)));
    assert!(rows[1].phases.is_none());
}

#[test]
fn the_gate_refuses_leaving_a_terminal_status() {
    let err = doctrine::slice::gate_slice_transition(7, "done", "started").unwrap_err();
    assert_eq!(err, "slice 007: refusing to leave terminal status `done` (reopening is deferred)");
}

#[test]
fn the_gate_refuses_a_closure_seam_breach() {
    let err = doctrine::slice::gate_slice_transition(12, "started", "done").unwrap_err();
    assert_eq!(
        err,
        "slice 012: `done` is reachable only across the closure seam (→ reconcile from audit, → done from reconcile), not from `started`"
    );
}

#[test]
fn the_gate_passes_an_advance_with_its_classification() {
    assert_eq!(
        doctrine::slice::gate_slice_transition(3, "audit", "reconcile"),
        Ok(doctrine::lifecycle::Transition::Advance)
    );
}

fn render_default(rows: &Vec<(Meta, Option<PhaseRollup>)>) -> String {
    render_slice_list(rows, None).unwrap()
}

fn render_cols(rows: &Vec<(Meta, Option<PhaseRollup>)>, cols: &[&str]) -> String {
    let owned: Vec<String> = cols.iter().map(|s| (*s).to_string()).collect();
    render_slice_list(rows, Some(&owned)).unwrap()
}

#[test]
fn slice_list_empty_suppresses_the_header() {
    assert_eq!(render_default(&vec![]), "");
}

#[test]
fn slice_list_default_renders_prefixed_ids_rollup_and_divergence() {
    let rows = vec![
        (meta(1, "done", "entity-v1", "Entity v1"), Some(rollup(6, 0))),
        (meta(7, "done", "anchoring", "Anchoring"), Some(rollup(2, 4))),
        (meta(9, "proposed", "rollup", "Rollup"), None),
    ];
    let out = render_default(&rows);
    let lines: Vec<&str> = out.lines().collect();
    assert!(lines[0].starts_with("id"), "header: {:?}", lines[0]);
    assert!(lines[0].contains("phases"), "phases column: {:?}", lines[0]);
    assert!(lines[1].starts_with("SL-001 │ done"), "{:?}", lines[1]);
    assert!(lines[1].contains("6/6"));
    assert!(lines[2].starts_with("SL-007 │ done ⚠"), "{:?}", lines[2]);
    assert!(lines[2].contains("2/6"));
    assert!(lines[3].starts_with("SL-009 │ proposed"), "{:?}", lines[3]);
    assert!(lines[3].contains("—"));
    assert!(!out.contains("\n001  "), "no bare numeric id: {out}");
}

#[test]
fn slice_list_default_omits_slug() {
    let rows = vec![(meta(1, "proposed", "entity-v1", "Entity v1"), None)];
    let out = render_default(&rows);
    let header = out.lines().next().unwrap();
    assert!(!header.contains("slug"), "default header omits slug: {header:?}");
    assert!(!out.contains("entity-v1"), "slug value hidden by default: {out}");
    assert!(header.contains("title"), "default keeps title: {header:?}");
}

#[test]
fn slice_list_columns_reveals_slug_and_preserves_markers() {
    let rows = vec![(meta(7, "done", "anchoring", "Anchoring"), Some(rollup(2, 4)))];
    let out = render_cols(&rows, &["id", "status", "phases", "slug"]);
    let lines: Vec<&str> = out.lines().collect();
    assert_eq!(lines[0].split_whitespace().collect::<Vec<_>>(), vec!["id", "│", "status", "│", "phases", "│", "slug"]);
    assert!(out.contains("anchoring"), "slug revealed by --columns: {out}");
    assert!(lines[1].contains("done ⚠"), "⚠ marker preserved: {:?}", lines[1]);
    assert!(lines[1].contains("2/6"), "phases cell intact: {:?}", lines[1]);
}

#[test]
fn slice_list_pads_every_column_but_the_last() {
    let rows = vec![(meta(3, "started", "s", "A title"), Some(rollup(1, 1)))];
    assert_eq!(
        render_default(&rows),
        "id     │ status  │ phases │ title\nSL-003 │ started │ 1/2    │ A title\n"
    );
}

#[test]
fn slice_list_refuses_an_unknown_column() {
    let rows = vec![(meta(3, "started", "s", "A title"), None)];
    let err = render_slice_list(&rows, Some(&vec!["id".to_string(), "owner".to_string()])).unwrap_err();
    assert_eq!(err, "unknown column `owner` (known: id, status, phases, slug, title)");
}
