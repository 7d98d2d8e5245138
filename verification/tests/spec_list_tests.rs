use doctrine::listing::Meta;
use doctrine::spec::{spec_list_rows, SpecListRow, SpecSubtype};
use doctrine::spec_list::{render_spec_list, spec_json_rows};

fn meta(id: u32, slug: &str, title: &str) -> Meta {
    Meta { id, slug: slug.to_string(), title: title.to_string(), status: "draft".to_string(), tags: Vec::new() }
}

fn product_rows() -> Vec<SpecListRow> {
    spec_list_rows(SpecSubtype::Product, &vec![(meta(1, "onboarding", "Onboarding"), 0), (meta(2, "billing", "Billing"), 0)])
}

fn cols(names: &[&str]) -> Vec<String> {
    names.iter().map(|s| (*s).to_string()).collect()
}

#[test]
fn spec_list_default_blocks_show_title_and_member_count() {
    let out = render_spec_list(&product_rows(), &Vec::new(), None).unwrap();
    assert!(out.starts_with("product\n"), "{out}");
    assert!(out.contains("#members"), "{out}");
    assert!(out.contains("PRD-001 │ draft  │ Onboarding"), "{out}");
    assert!(out.contains("PRD-002 │ draft  │ Billing"), "{out}");
    assert!(!out.contains("onboarding"), "slug hidden by default: {out}");
    for line in out.lines().filter(|l| l.starts_with("PRD-")) {
        assert!(line.trim_end().ends_with('0'), "{line}");
    }
    assert!(!out.contains("tech\n"), "empty tech block suppressed: {out}");
}

#[test]
fn spec_list_columns_reveal_slug_and_drop_the_rest() {
    let out = render_spec_list(&product_rows(), &Vec::new(), Some(&cols(&["id", "slug"]))).unwrap();
    assert!(out.starts_with("product\n"), "{out}");
    assert!(out.contains("PRD-001 │ onboarding"), "{out}");
    assert!(!out.contains("#members"), "{out}");
    assert!(!out.contains("Onboarding"), "{out}");
}

#[test]
fn spec_list_unknown_column_names_it_and_the_known_set() {
    let err = render_spec_list(&product_rows(), &Vec::new(), Some(&cols(&["bogus"]))).unwrap_err();
    assert_eq!(err, "unknown column `bogus` (known: id, status, slug, title, members)");
}

#[test]
fn spec_list_product_block_precedes_tech_with_prefixed_ids() {
    let tech = spec_list_rows(SpecSubtype::Tech, &vec![(meta(1, "cli", "CLI"), 3)]);
    let out = render_spec_list(&product_rows(), &tech, None).unwrap();
    let p = out.find("product\n").unwrap();
    let t = out.find("tech\n").unwrap();
    assert!(p < t, "{out}");
    assert!(out.contains("SPEC-001"), "{out}");
    assert!(out.lines().any(|l| l.starts_with("SPEC-001") && l.trim_end().ends_with('3')), "{out}");
}

#[test]
fn spec_list_with_no_rows_is_empty() {
    assert_eq!(render_spec_list(&Vec::new(), &Vec::new(), None).unwrap(), "");
}

#[test]
fn spec_list_json_rows_label_each_row_with_its_subtype() {
    let rows = spec_json_rows(SpecSubtype::Tech, &vec![(meta(1, "cli", "CLI"), 2)]);
    assert_eq!(rows.len(), 1);
    assert_eq!(rows[0].id, "SPEC-001");
    assert_eq!(rows[0].subtype, "tech");
    assert_eq!(rows[0].status, "draft");
    assert_eq!(rows[0].slug, "cli");
    assert_eq!(rows[0].members, 2);
    let product = spec_json_rows(SpecSubtype::Product, &vec![(meta(1, "onboarding", "Onboarding"), 0)]);
    assert_eq!(product[0].id, "PRD-001");
    assert_eq!(product[0].subtype, "product");
}
