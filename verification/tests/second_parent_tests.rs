use doctrine::second_parent::{enclosing_line, is_second_parent};

const SPEC_BASE: &str = "id = 1\nslug = \"cli\"\ntitle = \"CLI\"\nstatus = \"draft\"\nkind = \"tech\"\ntags = []\n";

/// Parse `src` as a TOML table; on failure, ask the classifier about the error.
fn classify_table(src: &str) -> bool {
    match toml::from_str::<toml::Table>(src) {
        Ok(_) => false,
        Err(e) => is_second_parent(e.span().map(|s| s.start), e.message(), src),
    }
}

#[test]
fn second_parent_classifier_matches_duplicate_parent() {
    assert!(classify_table(&format!("{SPEC_BASE}parent = \"SPEC-001\"\nparent = \"SPEC-002\"\n")));
}

#[test]
fn second_parent_classifier_matches_array_parent() {
    let src = format!("{SPEC_BASE}parent = [\"SPEC-001\", \"SPEC-002\"]\n");
    let at = src.find("[\"SPEC").unwrap();
    assert!(is_second_parent(Some(at), "invalid type: sequence, expected a string", &src));
}

#[test]
fn second_parent_classifier_ignores_unrelated_parse_errors() {
    let wrong = format!("{SPEC_BASE}parent = 5\n");
    let at = wrong.find("5\n").unwrap();
    assert!(!is_second_parent(Some(at), "invalid type: integer `5`, expected a string", &wrong));
    assert!(!classify_table(&format!("{SPEC_BASE}category = \"a\"\ncategory = \"b\"\n")));
    let slug = "id = 1\nslug = []\ntitle = \"X\"\nstatus = \"draft\"\nkind = \"tech\"\ntags = []\n";
    let at = slug.find("[]").unwrap();
    assert!(!is_second_parent(Some(at), "invalid type: sequence, expected a string", slug));
}

#[test]
fn second_parent_needs_a_position() {
    assert!(!is_second_parent(None, "duplicate key", "parent = 1\nparent = 2\n"));
}

#[test]
fn commented_parent_line_is_not_the_parent_key() {
    let src = "# parent = \"SPEC-001\"\nparent = \"SPEC-002\"\n";
    assert!(!is_second_parent(Some(2), "duplicate key", src));
}

#[test]
fn enclosing_line_finds_the_line_around_a_byte() {
    let src = "alpha\nbeta = 1\ngamma\n";
    assert_eq!(enclosing_line(src, 0), "alpha");
    assert_eq!(enclosing_line(src, 8), "beta = 1");
    assert_eq!(enclosing_line(src, 6), "beta = 1");
    assert_eq!(enclosing_line(src, 5), "alpha");
    assert_eq!(enclosing_line(src, 1000), "");
    assert_eq!(enclosing_line("no newline", 3), "no newline");
}

#[test]
fn enclosing_line_inside_a_character_is_the_whole_source() {
    let src = "é = 1\nx";
    assert_eq!(enclosing_line(src, 1), src);
    assert_eq!(enclosing_line(src, 2), "é = 1");
}
