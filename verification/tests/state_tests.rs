use doctrine::sorted::SortedSet;
use doctrine::state::{
    boundaries_path, check_completeness, fold_rollup, phase_id_from_stem, phase_stem, phases_dir, render_phase_sheet,
    render_tracking, Completeness, CompletenessGap, PhaseRollup, PhaseStatus, PlanPhase, StemStatus,
};

fn completed_set(ids: &[&str]) -> SortedSet {
    let mut s = SortedSet::new();
    for id in ids {
        s.insert((*id).to_string());
    }
    s
}

#[test]
fn phase_stem_derives_and_validates() {
    assert_eq!(phase_stem("PHASE-01").unwrap(), "phase-01");
    assert_eq!(phase_stem("PHASE-137").unwrap(), "phase-137");
}

#[test]
fn phase_stem_rejects_malformed_ids() {
    for bad in ["", "PHASE-", "phase-01", "PHASE-1a", "PHASE-../x", "PHASE-0/1", ".PHASE-01", "P01"] {
        assert!(phase_stem(bad).is_err(), "{bad:?} should be rejected");
    }
}

#[test]
fn phase_stem_error_quotes_the_id() {
    assert_eq!(phase_stem("P\"01").unwrap_err(), "Phase id \"P\\\"01\" must match PHASE-<digits>");
}

#[test]
fn phase_id_from_stem_inverts_phase_stem() {
    for id in ["PHASE-01", "PHASE-137", "PHASE-0"] {
        assert_eq!(phase_id_from_stem(&phase_stem(id).unwrap()), id);
    }
    assert_eq!(phase_id_from_stem("other"), "PHASE-other");
}

#[test]
fn fold_rollup_empty_is_all_zero() {
    assert_eq!(fold_rollup(&[]), PhaseRollup::default());
}

#[test]
fn fold_rollup_counts_each_known_status_into_its_bucket() {
    let stems = [
        StemStatus::Toml("completed"),
        StemStatus::Toml("completed"),
        StemStatus::Toml("in_progress"),
        StemStatus::Toml("planned"),
        StemStatus::Toml("blocked"),
    ];
    let r = fold_rollup(&stems);
    assert_eq!(
        r,
        PhaseRollup { planned: 1, in_progress: 1, completed: 2, blocked: 1, unknown: 0, missing_toml: 0 }
    );
}

#[test]
fn fold_rollup_buckets_unknown_status_and_missing_toml_separately() {
    let stems = [StemStatus::Toml("completed"), StemStatus::Toml("garbage"), StemStatus::MissingToml];
    let r = fold_rollup(&stems);
    assert_eq!(r.completed, 1);
    assert_eq!(r.unknown, 1);
    assert_eq!(r.missing_toml, 1);
    let counted = r.planned + r.in_progress + r.completed + r.blocked + r.unknown + r.missing_toml;
    assert_eq!(counted, 3);
    assert_eq!(r.total(), 3);
    assert_eq!(r.anomalies(), 2);
}

#[test]
fn phase_status_spellings_round_trip() {
    for s in [PhaseStatus::Planned, PhaseStatus::InProgress, PhaseStatus::Completed, PhaseStatus::Blocked] {
        assert_eq!(PhaseStatus::parse(s.as_str()), Some(s));
    }
    assert_eq!(PhaseStatus::parse("Completed"), None);
}

#[test]
fn completeness_is_complete_when_rows_cover_completed_phases() {
    let completed = completed_set(&["PHASE-01", "PHASE-02"]);
    let recorded = vec!["PHASE-01".to_string(), "PHASE-02".to_string()];
    assert_eq!(check_completeness(&completed, &recorded), Completeness::Complete);
}

#[test]
fn completeness_flags_a_missing_row_for_a_completed_phase() {
    let completed = completed_set(&["PHASE-01", "PHASE-02"]);
    let recorded = vec!["PHASE-01".to_string()];
    let Completeness::Incomplete { gaps } = check_completeness(&completed, &recorded) else {
        panic!("expected incomplete");
    };
    assert_eq!(gaps, vec![CompletenessGap::Missing { phase: "PHASE-02".to_string() }]);
    assert!(gaps[0].describe().contains("PHASE-02"));
}

#[test]
fn completeness_flags_an_extra_row() {
    let completed = completed_set(&["PHASE-01"]);
    let recorded = vec!["PHASE-01".to_string(), "PHASE-09".to_string()];
    let Completeness::Incomplete { gaps } = check_completeness(&completed, &recorded) else {
        panic!("expected incomplete");
    };
    assert_eq!(gaps, vec![CompletenessGap::Extra { phase: "PHASE-09".to_string() }]);
}

#[test]
fn completeness_flags_a_duplicate_row() {
    let completed = completed_set(&["PHASE-01"]);
    let recorded = vec!["PHASE-01".to_string(), "PHASE-01".to_string()];
    assert_eq!(
        check_completeness(&completed, &recorded),
        Completeness::Incomplete { gaps: vec![CompletenessGap::Duplicate { phase: "PHASE-01".to_string() }] }
    );
}

#[test]
fn completeness_orders_missing_then_extra_then_duplicate() {
    let completed = completed_set(&["PHASE-03", "PHASE-01", "PHASE-02"]);
    let recorded = vec![
        "PHASE-09".to_string(),
        "PHASE-02".to_string(),
        "PHASE-02".to_string(),
        "PHASE-02".to_string(),
        "PHASE-05".to_string(),
    ];
    assert_eq!(
        check_completeness(&completed, &recorded),
        Completeness::Incomplete {
            gaps: vec![
                CompletenessGap::Missing { phase: "PHASE-01".to_string() },
                CompletenessGap::Missing { phase: "PHASE-03".to_string() },
                CompletenessGap::Extra { phase: "PHASE-05".to_string() },
                CompletenessGap::Extra { phase: "PHASE-09".to_string() },
                CompletenessGap::Duplicate { phase: "PHASE-02".to_string() },
            ]
        }
    );
}

#[test]
fn gap_descriptions_name_the_phase() {
    let p = "PHASE-04".to_string();
    assert_eq!(
        CompletenessGap::Missing { phase: p.clone() }.describe(),
        "completed phase PHASE-04 has no recorded source-delta row"
    );
    assert_eq!(
        CompletenessGap::Extra { phase: p.clone() }.describe(),
        "recorded row for PHASE-04, which is not a completed phase"
    );
    assert_eq!(CompletenessGap::Duplicate { phase: p }.describe(), "recorded more than one row for phase PHASE-04");
}

#[test]
fn state_paths_are_derived_from_the_slice_id() {
    assert_eq!(phases_dir("/repo", 7), "/repo/.doctrine/state/slice/007/phases");
    assert_eq!(phases_dir("/repo/", 147), "/repo/.doctrine/state/slice/147/phases");
    assert_eq!(boundaries_path("/main", 12), "/main/.doctrine/state/slice/012/boundaries.toml");
    assert_eq!(phases_dir("", 1), ".doctrine/state/slice/001/phases");
}

#[test]
fn render_tracking_is_the_planned_skeleton() {
    let t = render_tracking("PHASE-03");
    assert!(t.starts_with("schema  = \"doctrine.phase.tracking\"\nversion = 1\nphase   = \"PHASE-03\"\n"));
    assert!(t.contains("status  = \"planned\""));
    assert!(t.ends_with("# Append-only runtime progress log, written by `doctrine slice phase`.\n"));
}

#[test]
fn render_phase_sheet_fills_each_placeholder() {
    let phase = PlanPhase { id: "PHASE-02".into(), name: "Wire".into(), objective: "Connect it".into() };
    let out = render_phase_sheet("# {{phase_id}} {{name}}\n{{objective}}\n{{name}}", &phase);
    assert_eq!(out, "# PHASE-02 Wire\nConnect it\nWire");
}

#[test]
fn completeness_lists_an_extra_before_an_earlier_duplicate() {
    let completed = completed_set(&["PHASE-01"]);
    let recorded = vec!["PHASE-01".to_string(), "PHASE-01".to_string(), "PHASE-09".to_string()];
    assert_eq!(
        check_completeness(&completed, &recorded),
        Completeness::Incomplete {
            gaps: vec![
                CompletenessGap::Extra { phase: "PHASE-09".to_string() },
                CompletenessGap::Duplicate { phase: "PHASE-01".to_string() },
            ]
        }
    );
}
