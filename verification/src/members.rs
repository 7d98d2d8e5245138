//! The membership roster of a spec (`members.toml`): one `[[member]]` row per
//! requirement, appended in place on the held document so that its comments
//! and unknown keys are kept.

use vstd::prelude::*;
use crate::selector::Row;
use crate::tomldoc::{doc_keys, doc_strings, doc_arrays, doc_table_arrays, doc_table_array_ints, doc_contains_key,
    doc_is_table_array, doc_set_empty_table_array, doc_row_count, doc_row_set_str, doc_row_set_int, doc_push_row};

verus! {

/// The `member` key holds an item that is not an array of tables.
pub open spec fn member_malformed(d: toml_edit::DocumentMut) -> bool {
    doc_keys(d).contains("member"@) && !doc_table_arrays(d).contains_key("member"@)
}

/// The membership rows by their string entries; none without a roster.
pub open spec fn member_rows(d: toml_edit::DocumentMut) -> Seq<Row> {
    if doc_table_arrays(d).contains_key("member"@) {
        doc_table_arrays(d)["member"@]
    } else {
        Seq::empty()
    }
}

/// The membership rows by their integer entries; none without a roster.
pub open spec fn member_int_rows(d: toml_edit::DocumentMut) -> Seq<Map<Seq<char>, int>> {
    if doc_table_arrays(d).contains_key("member"@) {
        doc_table_array_ints(d)["member"@]
    } else {
        Seq::empty()
    }
}

/// Why a membership row could not be appended.
#[derive(Debug, Clone, Copy, PartialEq, Eq, Structural)]
pub enum MemberError {
    /// The `member` key holds something other than an array of tables.
    NotTableArray,
}

impl MemberError {
    /// The message shown for the refusal.
    pub fn message(&self) -> (s: String)
        ensures
            s@ == "`member` is not an array of tables"@,
    {
        String::from_str("`member` is not an array of tables")
    }
}

/// Append one `[[member]]` row — `requirement`, `label`, `order` — to the
/// held roster, creating the array when the key is absent. A `member` key
/// that holds anything else is refused and the document left as it was.
pub fn append_member(doc: &mut toml_edit::DocumentMut, requirement_fk: &str, label: &str, order: u32) -> (r: Result<(), MemberError>)
    ensures
        member_malformed(*old(doc)) ==> r == Err::<(), MemberError>(MemberError::NotTableArray) && *final(doc) == *old(doc),
        !member_malformed(*old(doc)) ==> r is Ok,
        !member_malformed(*old(doc)) ==> doc_keys(*final(doc)) == doc_keys(*old(doc)).insert("member"@),
        !member_malformed(*old(doc)) ==> doc_strings(*final(doc)) == doc_strings(*old(doc)),
        !member_malformed(*old(doc)) ==> doc_arrays(*final(doc)) == doc_arrays(*old(doc)),
        !member_malformed(*old(doc)) ==> doc_table_arrays(*final(doc)) == doc_table_arrays(*old(doc)).insert("member"@,
            member_rows(*old(doc)).push(Map::empty().insert("requirement"@, requirement_fk@).insert("label"@, label@))),
        !member_malformed(*old(doc)) ==> doc_table_array_ints(*final(doc))["member"@]
            == member_int_rows(*old(doc)).push(Map::empty().insert("order"@, order as int)),
{
    proof {
        reveal_strlit("member");
        reveal_strlit("requirement");
        reveal_strlit("label");
        reveal_strlit("order");
    }
    let ghost d0 = *doc;
    if !doc_contains_key(doc, "member") {
        doc_set_empty_table_array(doc, "member");
        proof {
            assert(doc_strings(*doc) =~= doc_strings(d0));
            assert(doc_arrays(*doc) =~= doc_arrays(d0));
        }
    }
    if !doc_is_table_array(doc, "member") {
        return Err(MemberError::NotTableArray);
    }
    let ghost d1 = *doc;
    let ghost rows = doc_table_arrays(d1)["member"@];
    let ghost ints = doc_table_array_ints(d1)["member"@];
    proof {
        assert(rows == member_rows(d0));
        assert(ints == member_int_rows(d0));
        assert(doc_keys(d1) =~= doc_keys(d0).insert("member"@));
    }
    let n = doc_row_count(doc, "member");
    doc_push_row(doc, "member");
    doc_row_set_str(doc, "member", n, "requirement", requirement_fk);
    doc_row_set_str(doc, "member", n, "label", label);
    doc_row_set_int(doc, "member", n, "order", order as i64);
    proof {
        assert("order"@ != "requirement"@ && "order"@ != "label"@ && "label"@ != "requirement"@) by {
            assert("order"@[0] != "requirement"@[0]);
            assert("order"@[0] != "label"@[0]);
            assert("label"@[0] != "requirement"@[0]);
        }
        let new_row = Map::<Seq<char>, Seq<char>>::empty().insert("requirement"@, requirement_fk@).insert("label"@, label@);
        assert(doc_table_arrays(*doc)["member"@] =~= rows.push(new_row)) by {
            assert(doc_table_arrays(*doc)["member"@][n as int] =~= new_row);
        }
        assert(doc_table_arrays(*doc) =~= doc_table_arrays(d0).insert("member"@, rows.push(new_row)));
        let new_int = Map::<Seq<char>, int>::empty().insert("order"@, order as int);
        assert(doc_table_array_ints(*doc)["member"@] =~= ints.push(new_int)) by {
            assert(doc_table_array_ints(*doc)["member"@][n as int] =~= new_int);
        }
    }
    Ok(())
}

} // verus!
