use doctrine::sorted::SortedSet;
use doctrine::tag::{apply_tags_set, check_tag, fold_filter_tag, normalize_tag, TagsEditError, TAGGABLE};

fn set_of(items: &[&str]) -> SortedSet {
    let mut s = SortedSet::new();
    for item in items {
        s.insert(item.to_string());
    }
    s
}

#[test]
fn normalises_trim_and_lowercase() {
    assert_eq!(normalize_tag("  Area:Backlog ").unwrap(), "area:backlog");
}

#[test]
fn accepts_valid_charset() {
    assert_eq!(normalize_tag("a_b-1:c").unwrap(), "a_b-1:c");
}

#[test]
fn rejects_invalid_chars() {
    for bad in ["a b", "a@b"] {
        let err = normalize_tag(bad).unwrap_err();
        assert!(err.contains(bad), "the reject names the offending token: {err}");
    }
}

#[test]
fn rejects_empty_after_trim() {
    assert!(normalize_tag("   ").is_err(), "empty-after-trim is rejected");
    assert_eq!(normalize_tag("   ").unwrap_err(), "empty tag `   ` — tags must be non-empty `[a-z0-9_:-]`");
}

#[test]
fn fold_filter_tag_lenient() {
    assert_eq!(fold_filter_tag("  Security "), "security");
    assert_eq!(fold_filter_tag("a b"), "a b");
}

#[test]
fn record_kinds_are_taggable() {
    let record_prefixes = ["ASM", "DEC", "QUE", "CON"];
    for prefix in record_prefixes {
        assert!(TAGGABLE.contains(&prefix), "{prefix} missing from TAGGABLE");
    }
}

#[test]
fn check_tag_judges_the_folded_tag() {
    assert_eq!(check_tag("X", "x".to_string()), Ok("x".to_string()));
    assert_eq!(
        check_tag("A B", "a b".to_string()),
        Err("invalid tag `A B` — tags must be `[a-z0-9_:-]` (lowercased, e.g. `area:backlog`)".to_string())
    );
}

#[test]
fn trimming_uses_unicode_whitespace() {
    assert_eq!(fold_filter_tag("\u{2003}Tag\t\n"), "tag");
}

#[test]
fn apply_tags_set_insert_if_missing_seeds_empty_array() {
    let text = "id = 1\nslug = \"a\"\ntitle = \"A\"\nkind = \"issue\"\n";
    let mut doc = text.parse::<toml_edit::DocumentMut>().unwrap();
    let adds = set_of(&["x"]);
    let removes = set_of(&[]);
    let changed = apply_tags_set(&mut doc, &adds, &removes, "today").unwrap();
    assert!(changed, "should write");
    let out = doc.to_string();
    assert!(out.contains("tags = [\"x\"]"), "tags seeded and populated: {out}");
}

#[test]
fn apply_tags_set_noop_guard_compares_as_sets() {
    let text = "id = 1\nslug = \"a\"\ntitle = \"A\"\nkind = \"issue\"\ntags = [\"b\", \"a\"]\n";
    let mut doc = text.parse::<toml_edit::DocumentMut>().unwrap();
    let adds = set_of(&["a"]);
    let removes = set_of(&[]);
    let changed = apply_tags_set(&mut doc, &adds, &removes, "today").unwrap();
    assert!(!changed, "no-op when set already contains tag");
    assert!(doc.to_string().contains("tags = [\"b\", \"a\"]"), "unsorted store unchanged on no-op");
}

#[test]
fn apply_tags_set_stores_sorted_union_diff() {
    let text = "id = 1\nslug = \"a\"\ntitle = \"A\"\nkind = \"issue\"\ntags = [\"a\", \"c\"]\n";
    let mut doc = text.parse::<toml_edit::DocumentMut>().unwrap();
    let adds = set_of(&["b"]);
    let removes = set_of(&["a"]);
    let changed = apply_tags_set(&mut doc, &adds, &removes, "today").unwrap();
    assert!(changed, "should write");
    let out = doc.to_string();
    assert!(out.contains("tags = [\"b\", \"c\"]"), "sorted union-diff: {out}");
}

#[test]
fn apply_tags_set_updated_stamped_if_present() {
    let text = "id = 1\nslug = \"a\"\ntitle = \"A\"\nkind = \"issue\"\nupdated = \"old\"\ntags = []\n";
    let mut doc = text.parse::<toml_edit::DocumentMut>().unwrap();
    let adds = set_of(&["x"]);
    let removes = set_of(&[]);
    let changed = apply_tags_set(&mut doc, &adds, &removes, "today").unwrap();
    assert!(changed, "should write");
    let out = doc.to_string();
    assert!(!out.contains("updated = \"old\""), "updated stamped: {out}");
    assert!(out.contains("updated = \"today\""), "updated stamped with today: {out}");

    let text2 = "id = 2\nslug = \"b\"\ntitle = \"B\"\nkind = \"issue\"\ntags = []\n";
    let mut doc2 = text2.parse::<toml_edit::DocumentMut>().unwrap();
    let changed2 = apply_tags_set(&mut doc2, &adds, &removes, "today").unwrap();
    assert!(changed2, "should write");
    let out2 = doc2.to_string();
    assert!(!out2.contains("updated"), "no updated key written when absent: {out2}");
}

#[test]
fn apply_tags_set_clear_on_untagged_is_noop() {
    let text = "id = 1\nslug = \"a\"\ntitle = \"A\"\nkind = \"issue\"\ntags = []\n";
    let mut doc = text.parse::<toml_edit::DocumentMut>().unwrap();
    let adds = set_of(&[]);
    let removes = set_of(&["x"]);
    let changed = apply_tags_set(&mut doc, &adds, &removes, "today").unwrap();
    assert!(!changed, "remove from empty is no-op");
}

#[test]
fn apply_tags_set_refuses_a_tags_key_that_is_not_an_array() {
    let text = "id = 1\ntags = \"x\"\n";
    let mut doc = text.parse::<toml_edit::DocumentMut>().unwrap();
    let before = doc.to_string();
    let err = apply_tags_set(&mut doc, &set_of(&["y"]), &set_of(&[]), "today").unwrap_err();
    assert_eq!(err, TagsEditError::NotAnArray);
    assert_eq!(err.message(), "malformed backlog item: tags key exists but is not an array");
    assert_eq!(doc.to_string(), before, "a refused edit leaves the document as it was");
}

#[test]
fn apply_tags_set_twice_is_a_noop_the_second_time() {
    let text = "id = 1\ntags = [\"m\", \"k\"]\nupdated = \"old\"\n";
    let mut doc = text.parse::<toml_edit::DocumentMut>().unwrap();
    let adds = set_of(&["z", "a"]);
    let removes = set_of(&["k"]);
    assert!(apply_tags_set(&mut doc, &adds, &removes, "d1").unwrap());
    let once = doc.to_string();
    assert!(once.contains("tags = [\"a\", \"m\", \"z\"]"), "sorted: {once}");
    assert!(!apply_tags_set(&mut doc, &adds, &removes, "d2").unwrap());
    assert_eq!(doc.to_string(), once, "the second application writes nothing");
}

#[test]
fn apply_tags_set_keeps_comments_and_other_keys() {
    let text = "# header\nid = 1 # inline\ntags = [\"b\"]\n\n[extra]\nkey = 2\n";
    let mut doc = text.parse::<toml_edit::DocumentMut>().unwrap();
    assert!(apply_tags_set(&mut doc, &set_of(&["a"]), &set_of(&[]), "t").unwrap());
    let out = doc.to_string();
    assert!(out.contains("# header"), "{out}");
    assert!(out.contains("id = 1 # inline"), "{out}");
    assert!(out.contains("[extra]\nkey = 2"), "{out}");
    assert!(out.contains("tags = [\"a\", \"b\"]"), "{out}");
}

#[test]
fn normalize_tag_is_idempotent_on_its_results() {
    for raw in ["  Area:Backlog ", "a_b-1:c", "X", "\u{3000}Tag\u{2003}"] {
        let t = normalize_tag(raw).unwrap();
        assert_eq!(normalize_tag(&t).unwrap(), t);
    }
}
