use doctrine::entity::{Artifact, ScaffoldCtx};
use doctrine::requirement::{ReqKind, ReqStatus, Requirement};
use doctrine::spec::{
    canonical_id, canonicalize_spec_ref, interaction_types, is_hidden, label_prefix, next_label, next_order,
    product_spec_scaffold, render, resolve_spec_ref, tech_spec_scaffold, C4Level, Interaction, Member, ProductLevel,
    Source, Spec, SpecStatus, SpecSubtype, SpecTemplates, SPEC_STATUSES,
};

const TEMPLATES: SpecTemplates<'static> = SpecTemplates {
    toml: "id = {{id}}\nslug = {{slug}}\ntitle = {{title}}\nkind = \"product\"\n",
    md: "# {{ref}}: {{title}}\n",
    members_seed: "# members\n",
    interactions_seed: "# interactions\n",
};

const TECH_TEMPLATES: SpecTemplates<'static> = SpecTemplates {
    toml: "id = {{id}}\nslug = {{slug}}\ntitle = {{title}}\nkind = \"tech\"\nresponsibilities = []\n",
    md: "# {{ref}}: {{title}}\n",
    members_seed: "# members\n",
    interactions_seed: "# interactions\n",
};

#[test]
fn product_spec_scaffold_is_light_3_files() {
    let ctx = ScaffoldCtx { id: 7, canonical: "PRD-007", slug: "fast-onboarding", title: "Fast onboarding", date: "2026-06-05" };
    let fileset = product_spec_scaffold(&ctx, &TEMPLATES);
    assert_eq!(fileset.len(), 4);
    assert!(matches!(&fileset[0],
        Artifact::File { rel_path, body }
        if rel_path == "007/spec-007.toml" && body.contains("kind = \"product\"")));
    assert!(matches!(&fileset[1],
        Artifact::File { rel_path, body }
        if rel_path == "007/spec-007.md" && body.contains("PRD-007: Fast onboarding")));
    assert!(matches!(&fileset[2], Artifact::File { rel_path, .. } if rel_path == "007/members.toml"));
    assert!(matches!(&fileset[3],
        Artifact::Symlink { rel_path, target }
        if rel_path == "007-fast-onboarding" && target == "007"));
    assert!(
        !fileset.iter().any(|a| matches!(a, Artifact::File { rel_path, .. } if rel_path == "007/interactions.toml")),
        "product has no interactions.toml"
    );
}

#[test]
fn tech_spec_scaffold_has_members_and_interactions() {
    let ctx = ScaffoldCtx { id: 3, canonical: "SPEC-003", slug: "cli", title: "CLI", date: "2026-06-05" };
    let fileset = tech_spec_scaffold(&ctx, &TECH_TEMPLATES);
    assert_eq!(fileset.len(), 5);
    let has = |p: &str| fileset.iter().any(|a| matches!(a, Artifact::File { rel_path, .. } if rel_path == p));
    assert!(has("003/spec-003.toml"));
    assert!(has("003/spec-003.md"));
    assert!(has("003/members.toml"));
    assert!(has("003/interactions.toml"));
    let toml_body = match &fileset[0] {
        Artifact::File { body, .. } => body,
        _ => panic!("first artifact is the toml"),
    };
    assert!(toml_body.contains("kind = \"tech\""));
    assert!(toml_body.contains("responsibilities = []"));
}

#[test]
fn spec_statuses_matches_the_variants() {
    let from_variants: Vec<&str> = [SpecStatus::Draft, SpecStatus::Active, SpecStatus::Deprecated, SpecStatus::Superseded]
        .iter()
        .map(|s| s.as_str())
        .collect();
    assert_eq!(from_variants, SPEC_STATUSES.to_vec());
}

#[test]
fn req_add_resolver_rejects_bare_numeric() {
    assert_eq!(resolve_spec_ref("PRD-7").unwrap(), (SpecSubtype::Product, 7));
    assert_eq!(resolve_spec_ref("SPEC-012").unwrap(), (SpecSubtype::Tech, 12));
    assert!(resolve_spec_ref("7").is_err());
    assert!(resolve_spec_ref("REQ-1").is_err());
    assert!(resolve_spec_ref("PRD-x").is_err());
}

#[test]
fn spec_ref_errors_name_what_was_wrong() {
    assert_eq!(
        resolve_spec_ref("7").unwrap_err(),
        "`7` is not a canonical spec ref (expected PRD-NNN or SPEC-NNN)"
    );
    assert_eq!(resolve_spec_ref("REQ-1").unwrap_err(), "unknown spec prefix `REQ` in `REQ-1` (expected PRD or SPEC)");
    assert_eq!(resolve_spec_ref("PRD-x").unwrap_err(), "`x` is not a numeric id in `PRD-x`");
    assert_eq!(resolve_spec_ref("A-PRD-1").unwrap_err(), "unknown spec prefix `A-PRD` in `A-PRD-1` (expected PRD or SPEC)");
}

#[test]
fn canonicalize_spec_ref_pads_or_leaves_as_is() {
    assert_eq!(canonicalize_spec_ref("SPEC-3"), "SPEC-003");
    assert_eq!(canonicalize_spec_ref("PRD-0012"), "PRD-012");
    assert_eq!(canonicalize_spec_ref("bogus"), "bogus");
    assert_eq!(canonical_id(SpecSubtype::Tech, 12), "SPEC-012");
}

fn member(requirement: &str, label: &str, order: u32) -> Member {
    Member { requirement: requirement.into(), label: label.into(), order }
}

#[test]
fn next_label_and_order_fill_per_kind_independently() {
    let members = vec![member("REQ-001", "FR-001", 1), member("REQ-002", "FR-002", 2), member("REQ-003", "NF-001", 3)];
    assert_eq!(next_label(&members, ReqKind::Functional), "FR-003");
    assert_eq!(next_label(&members, ReqKind::Quality), "NF-002");
    assert_eq!(next_label(&vec![], ReqKind::Functional), "FR-001");
    assert_eq!(next_order(&members), 4);
    assert_eq!(next_order(&vec![]), 1);
}

#[test]
fn next_label_ignores_malformed_labels() {
    let members = vec![member("REQ-001", "FR-x", 7), member("REQ-002", "FR009", 1), member("REQ-003", "FR-010", 2)];
    assert_eq!(next_label(&members, ReqKind::Functional), "FR-011");
    assert_eq!(label_prefix(ReqKind::Quality), "NF");
}

#[test]
fn spec_hide_set_is_superseded_only() {
    assert!(is_hidden("superseded"));
    assert!(!is_hidden("deprecated"));
}

#[test]
fn interaction_types_keep_the_last_type_per_target() {
    let edges = vec![
        Interaction { target: "SPEC-002".into(), kind: "uses".into(), notes: None },
        Interaction { target: "SPEC-001".into(), kind: "extends".into(), notes: None },
        Interaction { target: "SPEC-002".into(), kind: "depends-on".into(), notes: Some("n".into()) },
    ];
    let m = interaction_types(&edges);
    assert_eq!(m.len(), 2);
    assert_eq!(m.key_at(0), "SPEC-001");
    assert_eq!(m.get("SPEC-002").map(String::as_str), Some("depends-on"));
    assert_eq!(m.get("SPEC-001").map(String::as_str), Some("extends"));
    assert!(m.get("SPEC-009").is_none());
}

fn req(id: u32, title: &str, kind: ReqKind) -> Requirement {
    Requirement {
        id,
        title: title.to_string(),
        slug: title.to_lowercase().replace(' ', "-"),
        status: ReqStatus::Active,
        kind,
        description: Some(format!("{title} statement")),
        tags: Vec::new(),
        acceptance_criteria: Vec::new(),
    }
}

fn tech_spec(id: u32) -> Spec {
    Spec {
        id,
        slug: "cli".to_string(),
        title: "CLI".to_string(),
        status: SpecStatus::Active,
        kind: SpecSubtype::Tech,
        tags: Vec::new(),
        category: None,
        c4_level: None,
        product_level: None,
        responsibilities: Vec::new(),
        sources: Vec::new(),
        descends_from: None,
        parent: None,
    }
}

#[test]
fn render_reassembles_members_in_order() {
    let spec = tech_spec(7);
    let members = vec![
        (member("REQ-003", "FR-003", 3), req(3, "Third", ReqKind::Functional)),
        (member("REQ-001", "FR-001", 1), req(1, "First", ReqKind::Functional)),
        (member("REQ-002", "NF-001", 2), req(2, "Second", ReqKind::Quality)),
    ];
    let out = render(&spec, "## Body\n\nverbatim prose\n", &members, &vec![]);
    assert!(out.starts_with("`SPEC-007` — CLI\n"));
    assert!(out.contains("cli · active · tech"));
    assert!(out.contains("## Body"));
    assert!(out.contains("verbatim prose"));
    assert_eq!(out.matches("\n# ").count() + usize::from(out.starts_with("# ")), 0);
    let h1 = out.find("### FR-001 (REQ-001) — First").unwrap();
    let h2 = out.find("### NF-001 (REQ-002) — Second").unwrap();
    let h3 = out.find("### FR-003 (REQ-003) — Third").unwrap();
    assert!(h1 < h2 && h2 < h3, "members render sorted by order, not input order");
    assert!(out.contains("first · functional · active"));
    assert!(out.contains("First statement"));
    assert!(!out.contains("## Interactions"));
}

#[test]
fn render_includes_tech_flat_fields_and_requirement_facets() {
    let spec = Spec {
        tags: vec!["infra".to_string()],
        category: Some("cli".to_string()),
        c4_level: Some(C4Level::Container),
        responsibilities: vec!["route subcommands".to_string()],
        sources: vec![Source {
            language: "rust".to_string(),
            identifier: "doctrine/cli".to_string(),
            module: Some("doctrine::cli".to_string()),
        }],
        ..tech_spec(1)
    };
    let mut r = req(1, "Route", ReqKind::Functional);
    r.tags = vec!["core".to_string()];
    r.acceptance_criteria = vec!["dispatch works".to_string()];
    let members = vec![(member("REQ-001", "FR-001", 1), r)];
    let out = render(&spec, "## Overview\n", &members, &vec![]);
    assert!(out.contains("tags: infra"));
    assert!(out.contains("category: cli"));
    assert!(out.contains("c4 level: container"));
    assert!(out.contains("  - route subcommands"));
    assert!(out.contains("  - rust doctrine/cli (doctrine::cli)"));
    assert!(out.contains("tags: core"));
    assert!(out.contains("Route statement"));
    assert!(out.contains("  - dispatch works"));
}

#[test]
fn render_omits_statement_line_when_description_absent() {
    let spec = tech_spec(1);
    let mut r = req(1, "Bare", ReqKind::Functional);
    r.description = None;
    let members = vec![(member("REQ-001", "FR-001", 1), r)];
    let out = render(&spec, "p\n", &members, &vec![]);
    assert!(out.contains("### FR-001 (REQ-001) — Bare"));
    assert!(!out.contains("statement"));
}

#[test]
fn render_emits_outbound_interactions_for_tech_omits_when_empty() {
    let spec = tech_spec(1);
    let edges = vec![
        Interaction { target: "SPEC-002".to_string(), kind: "uses".to_string(), notes: Some("calls boot".to_string()) },
        Interaction { target: "SPEC-003".to_string(), kind: "extends".to_string(), notes: None },
    ];
    let with = render(&spec, "p\n", &vec![], &edges);
    assert!(with.contains("## Interactions"));
    assert!(with.contains("- SPEC-002 — uses: calls boot"));
    assert!(with.contains("- SPEC-003 — extends\n"));
    let without = render(&spec, "p\n", &vec![], &vec![]);
    assert!(!without.contains("## Interactions"));
}

#[test]
fn render_emits_descent_and_parent_for_tech_in_order() {
    let spec = Spec {
        c4_level: Some(C4Level::Component),
        descends_from: Some("PRD-001".to_string()),
        parent: Some("SPEC-002".to_string()),
        responsibilities: vec!["route".to_string()],
        ..tech_spec(1)
    };
    let out = render(&spec, "p\n", &vec![], &vec![]);
    assert!(out.contains("descends from: PRD-001\n"));
    assert!(out.contains("parent: SPEC-002\n"));
    assert!(!out.contains("children"));
    let c4 = out.find("c4 level:").unwrap();
    let descends = out.find("descends from:").unwrap();
    let parent = out.find("parent:").unwrap();
    let resp = out.find("responsibilities:").unwrap();
    assert!(c4 < descends && descends < parent && parent < resp);
}

#[test]
fn render_omits_descent_and_parent_when_none_and_for_product() {
    let tech = tech_spec(1);
    let out = render(&tech, "p\n", &vec![], &vec![]);
    assert!(!out.contains("descends from:"));
    assert!(!out.contains("\nparent:"));
    let product = Spec {
        kind: SpecSubtype::Product,
        descends_from: Some("PRD-001".to_string()),
        parent: None,
        ..tech_spec(1)
    };
    let pout = render(&product, "p\n", &vec![], &vec![]);
    assert!(!pout.contains("descends from:"));
    assert!(!pout.contains("parent:"));
}

#[test]
fn render_emits_product_level_and_parent_for_product_in_order() {
    let spec = Spec {
        kind: SpecSubtype::Product,
        product_level: Some(ProductLevel::Capability),
        parent: Some("PRD-003".to_string()),
        ..tech_spec(1)
    };
    let out = render(&spec, "p\n", &vec![], &vec![]);
    assert!(out.contains("product level: capability\n"));
    assert!(out.contains("parent: PRD-003\n"));
    assert!(!out.contains("children"));
    let level = out.find("product level:").unwrap();
    let parent = out.find("parent:").unwrap();
    assert!(level < parent);
}

#[test]
fn render_omits_c4_level_on_a_product_spec() {
    let spec = Spec { kind: SpecSubtype::Product, c4_level: Some(C4Level::Container), ..tech_spec(1) };
    let out = render(&spec, "p\n", &vec![], &vec![]);
    assert!(!out.contains("c4 level:"));
}

#[test]
fn render_keeps_input_order_among_equal_orders_and_ends_the_body() {
    let spec = tech_spec(2);
    let members = vec![
        (member("REQ-002", "FR-B", 1), req(2, "Bee", ReqKind::Functional)),
        (member("REQ-001", "FR-A", 1), req(1, "Ay", ReqKind::Functional)),
    ];
    let out = render(&spec, "no newline", &members, &vec![]);
    assert!(out.contains("\nno newline\n\n## Requirements\n"));
    assert!(out.find("FR-B").unwrap() < out.find("FR-A").unwrap());
    assert_eq!(
        render(&spec, "p\n", &vec![], &vec![]),
        "`SPEC-002` — CLI\ncli · active · tech\n\np\n\n## Requirements\n"
    );
}
