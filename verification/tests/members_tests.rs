use doctrine::members::{append_member, MemberError};

#[test]
fn append_member_writes_a_member_row_and_keeps_the_comment() {
    let text = "# Members of this spec, in advisory order.\n";
    let mut doc = text.parse::<toml_edit::DocumentMut>().unwrap();
    append_member(&mut doc, "REQ-001", "FR-001", 1).unwrap();
    append_member(&mut doc, "REQ-007", "NF-001", 2).unwrap();
    let out = doc.to_string();
    assert!(out.contains("# Members of this spec, in advisory order.\n"), "the comment survives: {out}");
    assert!(out.contains("[[member]]\nrequirement = \"REQ-001\"\nlabel = \"FR-001\"\norder = 1\n"), "{out}");
    assert!(out.contains("[[member]]\nrequirement = \"REQ-007\"\nlabel = \"NF-001\"\norder = 2\n"), "{out}");
    let reread = out.parse::<toml_edit::DocumentMut>().unwrap();
    let rows = reread.get("member").and_then(toml_edit::Item::as_array_of_tables).unwrap();
    assert_eq!(rows.len(), 2);
    assert_eq!(rows.get(1).unwrap().get("order").and_then(toml_edit::Item::as_integer), Some(2));
}

#[test]
fn append_member_refuses_a_member_key_that_is_not_an_array_of_tables() {
    let mut doc = "member = \"REQ-001\"\n".parse::<toml_edit::DocumentMut>().unwrap();
    let before = doc.to_string();
    let err = append_member(&mut doc, "REQ-002", "FR-002", 2).unwrap_err();
    assert_eq!(err, MemberError::NotTableArray);
    assert_eq!(err.message(), "`member` is not an array of tables");
    assert_eq!(doc.to_string(), before);
}
