use doctrine::entity::{Artifact, ScaffoldCtx};
use doctrine::standard::{is_hidden, parse_ref, render_standard_md, standard_scaffold, StandardStatus, STANDARD_STATUSES};

const STANDARD_MD: &str = "# {{ref}}: {{title}}\n\nA standard with status \"default\" is recommended unless justified.\n";
const STANDARD_TOML: &str = "id = {{id}}\nslug = {{slug}}\ntitle = {{title}}\nstatus = \"draft\"\ncreated = \"{{date}}\"\n";

#[test]
fn render_standard_md_substitutes_ref_and_title_without_frontmatter() {
    let body = render_standard_md(STANDARD_MD, "STD-007", "Two-space indent");
    assert!(body.starts_with("# STD-007: Two-space indent"));
    assert!(!body.contains("{{ref}}"));
    assert!(!body.contains("{{title}}"));
    assert!(!body.starts_with("---"));
    assert!(!body.contains("\n---\n"));
    assert!(body.contains("status \"default\""));
}

#[test]
fn standard_scaffold_lays_out_two_files_and_a_symlink() {
    let ctx = ScaffoldCtx { id: 7, canonical: "STD-007", slug: "two-space-indent", title: "Two-space indent", date: "2026-06-04" };
    let fileset = standard_scaffold(&ctx, STANDARD_TOML, STANDARD_MD);
    assert_eq!(fileset.len(), 3);
    assert!(matches!(&fileset[0],
        Artifact::File { rel_path, body }
        if rel_path == "007/standard-007.toml" && body.contains("2026-06-04")));
    assert!(matches!(&fileset[1],
        Artifact::File { rel_path, body }
        if rel_path == "007/standard-007.md" && body.contains("STD-007: Two-space indent")));
    assert!(matches!(&fileset[2],
        Artifact::Symlink { rel_path, target }
        if rel_path == "007-two-space-indent" && target == "007"));
}

#[test]
fn standard_known_set_matches_variants() {
    let variants = [
        StandardStatus::Draft,
        StandardStatus::Default,
        StandardStatus::Required,
        StandardStatus::Superseded,
        StandardStatus::Deprecated,
        StandardStatus::Retired,
    ];
    let from_variants: Vec<&str> = variants.iter().map(|v| v.as_str()).collect();
    assert_eq!(from_variants, STANDARD_STATUSES.to_vec());
}

#[test]
fn standard_hide_set_is_a_subset_of_the_known_set() {
    for s in STANDARD_STATUSES {
        let _ = is_hidden(s);
    }
    assert!(is_hidden("superseded"));
    assert!(is_hidden("deprecated"));
    assert!(is_hidden("retired"));
    assert!(!is_hidden("draft"));
    assert!(!is_hidden("default"));
    assert!(!is_hidden("required"));
}

#[test]
fn standard_parse_ref_accepts_prefixed_padded_and_bare_ids() {
    assert_eq!(parse_ref("STD-007").unwrap(), 7);
    assert_eq!(parse_ref("std-7").unwrap(), 7);
    assert_eq!(parse_ref("7").unwrap(), 7);
    assert_eq!(parse_ref("007").unwrap(), 7);
    let err = parse_ref("nope").unwrap_err();
    assert!(err.contains("standard"), "error should name standard kind: {err}");
}
