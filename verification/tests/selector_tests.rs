use doctrine::selector::{selector_listing, selector_remove_many, selector_set_note, selector_upsert, Selector, SelectorError};
use doctrine::slice::{serde_rename_kebab, SelectorIntent};

const SLICE_TOML: &str = "id = 1\nslug = \"test\"\ntitle = \"Test\"\nstatus = \"proposed\"\ncreated = \"2026-06-24\"\nupdated = \"2026-06-24\"\n\n[gate]\nextra_reqs = []\n";

fn slice_doc() -> toml_edit::DocumentMut {
    SLICE_TOML.parse::<toml_edit::DocumentMut>().unwrap()
}

/// The selector rows as (selector, intent, note) after a round trip through text.
fn rows(doc: &toml_edit::DocumentMut) -> Vec<(String, String, Option<String>)> {
    let reread = doc.to_string().parse::<toml_edit::DocumentMut>().unwrap();
    match reread.get("selector").and_then(toml_edit::Item::as_array_of_tables) {
        None => Vec::new(),
        Some(array) => array
            .iter()
            .map(|row| {
                (
                    row.get("selector").and_then(toml_edit::Item::as_str).unwrap_or("").to_string(),
                    row.get("intent").and_then(toml_edit::Item::as_str).unwrap_or("").to_string(),
                    row.get("note").and_then(toml_edit::Item::as_str).map(String::from),
                )
            })
            .collect(),
    }
}

#[test]
fn selector_add_and_read_back() {
    let mut doc = slice_doc();
    selector_upsert(&mut doc, "src/x.rs", "design-target", None).unwrap();
    selector_upsert(&mut doc, "src/y.rs", "design-target", Some("shared note")).unwrap();
    selector_upsert(&mut doc, "docs/*.md", "scope-relevant", None).unwrap();
    let rows = rows(&doc);
    assert_eq!(rows.len(), 3);
    assert_eq!(rows[0].0, "src/x.rs");
    assert_eq!(rows[0].1, serde_rename_kebab(SelectorIntent::DesignTarget));
    assert_eq!(rows[0].2, None);
    assert_eq!(rows[1].0, "src/y.rs");
    assert_eq!(rows[1].2.as_deref(), Some("shared note"));
    assert_eq!(rows[2].0, "docs/*.md");
    assert_eq!(rows[2].1, serde_rename_kebab(SelectorIntent::ScopeRelevant));
}

#[test]
fn selector_upsert_is_idempotent() {
    let mut doc = slice_doc();
    selector_upsert(&mut doc, "src/x.rs", "scope-relevant", Some("first")).unwrap();
    let mut doc = doc.to_string().parse::<toml_edit::DocumentMut>().unwrap();
    selector_upsert(&mut doc, "src/x.rs", "design-target", Some("updated")).unwrap();
    let rows = rows(&doc);
    assert_eq!(rows.len(), 1, "upsert should not duplicate");
    assert_eq!(rows[0].0, "src/x.rs");
    assert_eq!(rows[0].1, "design-target");
    assert_eq!(rows[0].2.as_deref(), Some("updated"));
}

#[test]
fn selector_upsert_twice_with_the_same_values_changes_nothing() {
    let mut doc = slice_doc();
    selector_upsert(&mut doc, "src/x.rs", "design-target", Some("n")).unwrap();
    let once = doc.to_string();
    selector_upsert(&mut doc, "src/x.rs", "design-target", Some("n")).unwrap();
    assert_eq!(doc.to_string(), once);
}

#[test]
fn selector_upsert_without_note_keeps_the_existing_note() {
    let mut doc = slice_doc();
    selector_upsert(&mut doc, "src/x.rs", "design-target", Some("kept")).unwrap();
    selector_upsert(&mut doc, "src/x.rs", "scope-relevant", None).unwrap();
    let rows = rows(&doc);
    assert_eq!(rows, vec![("src/x.rs".to_string(), "scope-relevant".to_string(), Some("kept".to_string()))]);
}

#[test]
fn selector_upsert_refuses_a_selector_key_that_is_not_an_array_of_tables() {
    let mut doc = "selector = \"oops\"\n".parse::<toml_edit::DocumentMut>().unwrap();
    let before = doc.to_string();
    let err = selector_upsert(&mut doc, "src/x.rs", "design-target", None).unwrap_err();
    assert_eq!(err, SelectorError::NotTableArray);
    assert_eq!(err.message(), "`selector` key exists but is not an array-of-tables (corrupt file)");
    assert_eq!(doc.to_string(), before);
}

#[test]
fn selector_note_sets_per_file_note() {
    let mut doc = slice_doc();
    selector_upsert(&mut doc, "src/x.rs", "design-target", Some("shared")).unwrap();
    selector_upsert(&mut doc, "src/y.rs", "design-target", Some("shared")).unwrap();
    assert!(selector_set_note(&mut doc, "src/x.rs", "per-file override"));
    let rows = rows(&doc);
    assert_eq!(rows.len(), 2);
    assert_eq!(rows[0].2.as_deref(), Some("per-file override"));
    assert_eq!(rows[1].2.as_deref(), Some("shared"));
}

#[test]
fn selector_note_missing_fails() {
    let mut doc = slice_doc();
    let before = doc.to_string();
    assert!(!selector_set_note(&mut doc, "nonexistent", "note"));
    assert_eq!(doc.to_string(), before);
}

#[test]
fn selector_rm_variadic() {
    let mut doc = slice_doc();
    selector_upsert(&mut doc, "src/a.rs", "design-target", None).unwrap();
    selector_upsert(&mut doc, "src/b.rs", "design-target", None).unwrap();
    selector_upsert(&mut doc, "src/c.rs", "design-target", None).unwrap();
    let removed = selector_remove_many(&mut doc, &vec!["src/a.rs".to_string(), "src/b.rs".to_string()]);
    assert_eq!(removed, 2);
    let rows = rows(&doc);
    assert_eq!(rows.len(), 1);
    assert_eq!(rows[0].0, "src/c.rs");
}

#[test]
fn selector_rm_noop_on_missing() {
    let mut doc = slice_doc();
    let removed = selector_remove_many(&mut doc, &vec!["nonexistent".to_string()]);
    assert_eq!(removed, 0);
}

#[test]
fn selector_rm_keeps_the_order_of_the_rest() {
    let mut doc = slice_doc();
    for glob in ["a", "b", "c", "d", "e"] {
        selector_upsert(&mut doc, glob, "scope-relevant", None).unwrap();
    }
    let removed = selector_remove_many(&mut doc, &vec!["b".to_string(), "d".to_string(), "zz".to_string()]);
    assert_eq!(removed, 2);
    let names: Vec<String> = rows(&doc).into_iter().map(|r| r.0).collect();
    assert_eq!(names, vec!["a", "c", "e"]);
    assert!(!selector_set_note(&mut doc, "b", "gone"), "a removed selector is not found again");
}

#[test]
fn selector_listing_pads_the_intent_and_dashes_a_missing_note() {
    let sels = vec![
        Selector { selector: "src/**".to_string(), intent: SelectorIntent::ScopeRelevant, note: Some("core".to_string()) },
        Selector { selector: "docs/a.md".to_string(), intent: SelectorIntent::DesignTarget, note: None },
    ];
    assert_eq!(
        selector_listing(&sels),
        "src/**  scope-relevant    core\ndocs/a.md  design-target     -\n"
    );
}

#[test]
fn selector_listing_of_none_says_so() {
    assert_eq!(selector_listing(&Vec::new()), "(no selectors)\n");
}
