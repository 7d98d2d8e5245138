use doctrine::registry::{add_requirement, add_spec, registry_new, SpecFacts, SpecParse};
use doctrine::requirement::canonicalize_fk;
use doctrine::spec::SpecSubtype;

fn facts(descends: Option<&str>, parent: Option<&str>, members: &[(&str, &str)], interactions: &[&str]) -> SpecFacts {
    SpecFacts {
        descends_from: descends.map(str::to_owned),
        parent: parent.map(str::to_owned),
        members: members.iter().map(|(r, l)| ((*r).to_owned(), (*l).to_owned())).collect(),
        interactions: interactions.iter().map(|t| (*t).to_owned()).collect(),
    }
}

#[test]
fn canonicalize_fk_pads_and_keeps_junk() {
    assert_eq!(canonicalize_fk("REQ-1"), "REQ-001");
    assert_eq!(canonicalize_fk("REQ-042"), "REQ-042");
    assert_eq!(canonicalize_fk("junk"), "junk");
    assert_eq!(canonicalize_fk("SPEC-1"), "SPEC-1");
}

#[test]
fn registry_canonicalizes_member_and_interaction_fks() {
    let mut reg = registry_new();
    add_requirement(&mut reg, 1);
    add_spec(&mut reg, SpecSubtype::Tech, 1, &SpecParse::Parsed(facts(None, None, &[("REQ-1", "FR-001")], &["SPEC-2"])));
    add_spec(&mut reg, SpecSubtype::Tech, 2, &SpecParse::Parsed(facts(None, None, &[], &[])));
    let m = reg.members.iter().find(|m| m.spec == "SPEC-001").unwrap();
    assert_eq!(m.requirement, "REQ-001");
    assert_eq!(m.label, "FR-001");
    let e = reg.interactions.iter().find(|e| e.spec == "SPEC-001").unwrap();
    assert_eq!(e.target, "SPEC-002");
    assert!(reg.requirements.contains("REQ-001"));
    assert!(reg.tech_specs.contains("SPEC-001") && reg.tech_specs.contains("SPEC-002"));
}

#[test]
fn registry_harvests_product_set_and_relational_edges() {
    let mut reg = registry_new();
    add_spec(&mut reg, SpecSubtype::Tech, 1, &SpecParse::Parsed(facts(Some("PRD-001"), Some("SPEC-2"), &[], &[])));
    add_spec(&mut reg, SpecSubtype::Product, 1, &SpecParse::Parsed(facts(None, Some("PRD-3"), &[], &[])));
    assert!(reg.product_specs.contains("PRD-001"));
    let d = reg.descents.iter().find(|e| e.spec == "SPEC-001").unwrap();
    assert_eq!(d.target, "PRD-001");
    assert!(!d.on_product);
    let p = reg.parents.iter().find(|e| e.spec == "SPEC-001").unwrap();
    assert_eq!(p.parent, "SPEC-002");
    let pp = reg.parents.iter().find(|e| e.spec == "PRD-001").unwrap();
    assert_eq!(pp.parent, "PRD-003");
    assert!(pp.on_product);
    assert!(reg.interactions.is_empty());
}

#[test]
fn a_second_parent_is_a_finding_not_an_edge() {
    let mut reg = registry_new();
    add_spec(&mut reg, SpecSubtype::Tech, 3, &SpecParse::SecondParent);
    assert_eq!(reg.build_findings.len(), 1);
    assert_eq!(reg.build_findings[0].spec, "SPEC-003");
    assert_eq!(reg.build_findings[0].message, "second parent: SPEC-003 declares more than one parent");
    assert!(!reg.tech_specs.contains("SPEC-003"));
    assert!(reg.parents.is_empty());
}
