use doctrine::show::{format_show, AfterEdge, DepSeq, ShowRelations, SliceDoc};
use doctrine::slice::Gate;

fn doc(id: u32, slug: &str, title: &str, status: &str, created: &str, updated: &str) -> SliceDoc {
    SliceDoc {
        id,
        slug: slug.into(),
        title: title.into(),
        status: status.into(),
        created: created.into(),
        updated: updated.into(),
        tags: vec![],
        gate: Gate::default(),
    }
}

fn no_relations() -> ShowRelations {
    ShowRelations { supersedes: vec![], governed_by: vec![], implements: vec![], scoped_from: vec![], concerns: vec![] }
}

fn implements(target: &str) -> ShowRelations {
    ShowRelations { implements: vec![target.into()], ..no_relations() }
}

fn no_dep_seq() -> DepSeq {
    DepSeq { needs: vec![], after: vec![] }
}

fn uniform_cli() -> SliceDoc {
    doc(25, "uniform-cli", "Uniform CLI", "started", "2026-06-01", "2026-06-08")
}

#[test]
fn format_show_renders_identity_and_scope_body() {
    let out = format_show(
        &uniform_cli(),
        &implements("PRD-010"),
        &no_dep_seq(),
        "# Scope\n\nthe scope body.\n",
        "self/auto",
        None,
        None,
    );
    assert!(out.contains("SL-025 — Uniform CLI"), "identity: {out}");
    assert!(out.contains("uniform-cli · started"), "flat fields: {out}");
    assert!(out.contains("conduct: self/auto"), "conduct posture: {out}");
    assert!(out.contains("created 2026-06-01 · updated 2026-06-08"));
    assert!(out.contains("references(implements): PRD-010"), "relationships axis: {out}");
    assert!(out.contains("the scope body."), "scope body appended: {out}");
}

#[test]
fn vt5_format_show_absent_facets_is_byte_identical() {
    let out = format_show(
        &uniform_cli(),
        &implements("PRD-010"),
        &no_dep_seq(),
        "# Scope\n\nthe scope body.\n",
        "self/auto",
        None,
        None,
    );
    let expected = [
        "SL-025 — Uniform CLI\n",
        "uniform-cli · started\n",
        "conduct: self/auto\n",
        "created 2026-06-01 · updated 2026-06-08\n",
        "\n",
        "relationships:\n",
        "  references(implements): PRD-010\n",
        "\n",
        "# Scope\n",
        "\n",
        "the scope body.\n",
    ]
    .concat();
    assert_eq!(out, expected, "absent facets must be byte-identical to pre-change format_show output");
}

#[test]
fn vt2_format_show_estimate_absent_no_row() {
    let out = format_show(&uniform_cli(), &no_relations(), &no_dep_seq(), "# Scope\n", "self/auto", None, None);
    assert!(!out.contains("estimate:"), "VT-2: estimate row must not appear when absent: {out}");
}

#[test]
fn vt3_format_show_value_present_renders_row() {
    let out = format_show(
        &uniform_cli(),
        &no_relations(),
        &no_dep_seq(),
        "# Scope\n",
        "self/auto",
        None,
        Some("value: 5.0 magic_beans"),
    );
    assert!(out.contains("value: 5.0 magic_beans"), "VT-3 value row: {out}");
}

#[test]
fn vt4_format_show_value_absent_no_row() {
    let out = format_show(&uniform_cli(), &no_relations(), &no_dep_seq(), "# Scope\n", "self/auto", None, None);
    assert!(!out.contains("value:"), "VT-4: value row must not appear when absent: {out}");
}

#[test]
fn show_surfaces_dep_seq_axes_in_table() {
    let d = doc(60, "dep-seq", "Dep Seq", "proposed", "2026-06-01", "2026-06-01");
    let ds = DepSeq {
        needs: vec!["SL-047".into()],
        after: vec![AfterEdge { to: "SL-002".into(), rank: 0 }, AfterEdge { to: "SL-003".into(), rank: 5 }],
    };
    let table = format_show(&d, &no_relations(), &ds, "# body\n", "self/auto", None, None);
    assert!(table.contains("relationships:"), "block renders: {table}");
    assert!(table.contains("needs: SL-047"), "needs axis: {table}");
    assert!(table.contains("after: SL-002, SL-003 (rank 5)"), "after axis with rank suffix: {table}");
}

#[test]
fn format_show_without_relations_has_no_block_and_lists_tags() {
    let mut d = uniform_cli();
    d.tags = vec!["area:cli".into(), "ux".into()];
    let out = format_show(&d, &no_relations(), &no_dep_seq(), "body\n", "self/gate", Some("estimate: 3 shots"), None);
    assert_eq!(
        out,
        "SL-025 — Uniform CLI\nuniform-cli · started\nconduct: self/gate\ntags: area:cli, ux\ncreated 2026-06-01 · updated 2026-06-08\nestimate: 3 shots\n\nbody\n"
    );
}

#[test]
fn format_show_orders_the_axes() {
    let rel = ShowRelations {
        supersedes: vec!["SL-001".into()],
        governed_by: vec!["ADR-002".into(), "POL-001".into()],
        implements: vec![],
        scoped_from: vec!["PRD-003".into()],
        concerns: vec!["REQ-009".into()],
    };
    let out = format_show(&uniform_cli(), &rel, &no_dep_seq(), "", "x", None, None);
    assert!(out.ends_with(
        "\nrelationships:\n  supersedes: SL-001\n  governed_by: ADR-002, POL-001\n  references(scoped_from): PRD-003\n  references(concerns): REQ-009\n\n"
    ), "{out}");
}
