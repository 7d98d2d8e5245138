//! Edits of a slice's `[[selector]]` rows — path or glob annotations with an
//! intent and an optional note — made in place on the held document, so that
//! everything else in it is kept.

use vstd::prelude::*;
use crate::slice::SelectorIntent;
use crate::table::{pad_right, padded};
use crate::text::{concat_all, str_eq, views};
use crate::tomldoc::{doc_keys, doc_strings, doc_arrays, doc_table_arrays, doc_contains_key, doc_is_table_array,
    doc_set_empty_table_array, doc_row_count, doc_row_str, doc_row_set_str, doc_push_row, doc_remove_row, rows_set};

verus! {

/// A table of a `[[selector]]` array, by its string-valued entries.
pub type Row = Map<Seq<char>, Seq<char>>;

/// Whether `row` is the selector row for `glob`.
pub open spec fn row_is(row: Row, glob: Seq<char>) -> bool {
    row.contains_key("selector"@) && row["selector"@] == glob
}

/// The first row that is the selector row for `glob`.
pub open spec fn find_selector(rows: Seq<Row>, glob: Seq<char>) -> Option<int>
    decreases rows.len(),
{
    if rows.len() == 0 {
        None
    } else {
        match find_selector(rows.drop_last(), glob) {
            Some(i) => Some(i),
            None => if row_is(rows.last(), glob) {
                Some(rows.len() - 1)
            } else {
                None
            },
        }
    }
}

/// `row` with `note` set, when there is one.
pub open spec fn with_note(row: Row, note: Option<Seq<char>>) -> Row {
    match note {
        Some(n) => row.insert("note"@, n),
        None => row,
    }
}

/// The rows after an upsert: the first row for `glob` gets the intent (and the
/// note, if given); without one, a new row for `glob` is appended.
pub open spec fn upsert_rows(rows: Seq<Row>, glob: Seq<char>, intent: Seq<char>, note: Option<Seq<char>>) -> Seq<Row> {
    match find_selector(rows, glob) {
        Some(i) => rows.update(i, with_note(rows[i].insert("intent"@, intent), note)),
        None => rows.push(with_note(Map::empty().insert("selector"@, glob).insert("intent"@, intent), note)),
    }
}

/// The selector string of a row; a row without one counts as `""`.
pub open spec fn selector_of(row: Row) -> Seq<char> {
    if row.contains_key("selector"@) {
        row["selector"@]
    } else {
        Seq::empty()
    }
}

/// The rows whose selector is none of `globs`, in order.
pub open spec fn kept_rows(rows: Seq<Row>, globs: Seq<Seq<char>>) -> Seq<Row>
    decreases rows.len(),
{
    if rows.len() == 0 {
        rows
    } else if globs.contains(selector_of(rows.last())) {
        kept_rows(rows.drop_last(), globs)
    } else {
        kept_rows(rows.drop_last(), globs).push(rows.last())
    }
}

/// The `[[selector]]` rows of a document; none when it has no such array.
pub open spec fn selector_rows(d: toml_edit::DocumentMut) -> Seq<Row> {
    if doc_table_arrays(d).contains_key("selector"@) {
        doc_table_arrays(d)["selector"@]
    } else {
        Seq::empty()
    }
}

/// The `selector` key holds an item that is not an array of tables.
pub open spec fn selector_malformed(d: toml_edit::DocumentMut) -> bool {
    doc_keys(d).contains("selector"@) && !doc_table_arrays(d).contains_key("selector"@)
}

/// The view of an optional string.
pub open spec fn opt_str(o: Option<&str>) -> Option<Seq<char>> {
    match o {
        Some(s) => Some(s@),
        None => None,
    }
}

/// Why a selector edit was refused.
#[derive(Debug, Clone, Copy, PartialEq, Eq, Structural)]
pub enum SelectorError {
    /// The `selector` key holds something other than an array of tables.
    NotTableArray,
}

impl SelectorError {
    /// The message shown for the refusal.
    pub fn message(&self) -> (s: String)
        ensures
            s@ == "`selector` key exists but is not an array-of-tables (corrupt file)"@,
    {
        String::from_str("`selector` key exists but is not an array-of-tables (corrupt file)")
    }
}

/// `find_selector` is the first index whose row is for `glob`.
pub proof fn lemma_find_selector(rows: Seq<Row>, glob: Seq<char>)
    ensures
        match find_selector(rows, glob) {
            Some(i) => 0 <= i < rows.len() && row_is(rows[i], glob)
                && forall|k: int| 0 <= k < i ==> !row_is(#[trigger] rows[k], glob),
            None => forall|k: int| 0 <= k < rows.len() ==> !row_is(#[trigger] rows[k], glob),
        },
    decreases rows.len(),
{
    if rows.len() > 0 {
        let d = rows.drop_last();
        lemma_find_selector(d, glob);
        assert forall|k: int| 0 <= k < d.len() implies #[trigger] d[k] == rows[k] by {}
        match find_selector(d, glob) {
            Some(i) => {
                assert(find_selector(rows, glob) == Some(i));
                assert forall|k: int| 0 <= k < i implies !row_is(#[trigger] rows[k], glob) by {
                    assert(d[k] == rows[k]);
                }
            },
            None => {
                assert(rows.last() == rows[rows.len() - 1]);
                if row_is(rows.last(), glob) {
                    assert(find_selector(rows, glob) == Some(rows.len() - 1));
                    assert forall|k: int| 0 <= k < rows.len() - 1 implies !row_is(#[trigger] rows[k], glob) by {
                        assert(d[k] == rows[k]);
                    }
                } else {
                    assert(find_selector(rows, glob) is None);
                    assert forall|k: int| 0 <= k < rows.len() implies !row_is(#[trigger] rows[k], glob) by {
                        if k < rows.len() - 1 {
                            assert(d[k] == rows[k]);
                        }
                    }
                }
            },
        }
    }
}

/// The first index whose row is for `glob` is what `find_selector` gives.
pub proof fn lemma_find_selector_at(rows: Seq<Row>, glob: Seq<char>, i: int)
    requires
        0 <= i < rows.len(),
        row_is(rows[i], glob),
        forall|k: int| 0 <= k < i ==> !row_is(#[trigger] rows[k], glob),
    ensures
        find_selector(rows, glob) == Some(i),
{
    lemma_find_selector(rows, glob);
    match find_selector(rows, glob) {
        Some(j) => {
            if j < i {
                assert(!row_is(rows[j], glob));
            }
            if i < j {
                assert(!row_is(rows[i], glob));
            }
        },
        None => {
            assert(!row_is(rows[i], glob));
        },
    }
}

/// Upsert one selector row into the document's `[[selector]]` array of
/// tables, creating the array when the key is absent. Identity is the
/// `selector` string: the first row for `glob` has its `intent` (and `note`,
/// when given) replaced; otherwise a row `selector`, `intent`, `note` is
/// appended. A `selector` key that holds anything else is refused and the
/// document is left as it was.
pub fn selector_upsert(doc: &mut toml_edit::DocumentMut, glob: &str, intent: &str, note: Option<&str>) -> (r: Result<(), SelectorError>)
    ensures
        selector_malformed(*old(doc)) ==> r == Err::<(), SelectorError>(SelectorError::NotTableArray) && *final(doc) == *old(doc),
        !selector_malformed(*old(doc)) ==> r is Ok,
        !selector_malformed(*old(doc)) ==> doc_keys(*final(doc)) == doc_keys(*old(doc)).insert("selector"@),
        !selector_malformed(*old(doc)) ==> doc_strings(*final(doc)) == doc_strings(*old(doc)),
        !selector_malformed(*old(doc)) ==> doc_arrays(*final(doc)) == doc_arrays(*old(doc)),
        !selector_malformed(*old(doc)) ==> doc_table_arrays(*final(doc)) == doc_table_arrays(*old(doc)).insert(
            "selector"@, upsert_rows(selector_rows(*old(doc)), glob@, intent@, opt_str(note))),
{
    proof {
        reveal_strlit("selector");
        reveal_strlit("intent");
        reveal_strlit("note");
    }
    let ghost d0 = *doc;
    if !doc_contains_key(doc, "selector") {
        doc_set_empty_table_array(doc, "selector");
        proof {
            assert(doc_strings(*doc) =~= doc_strings(d0));
            assert(doc_arrays(*doc) =~= doc_arrays(d0));
        }
    }
    if !doc_is_table_array(doc, "selector") {
        return Err(SelectorError::NotTableArray);
    }
    let ghost d1 = *doc;
    let ghost rows = doc_table_arrays(d1)["selector"@];
    proof {
        assert(rows == selector_rows(d0));
        assert(doc_keys(d1) =~= doc_keys(d0).insert("selector"@));
        assert(doc_table_arrays(d1) =~= doc_table_arrays(d0).insert("selector"@, rows));
        assert(!selector_malformed(d0));
    }
    let n = doc_row_count(doc, "selector");
    let mut i: usize = 0;
    while i < n
        invariant
            *doc == d1,
            d0 == *old(doc),
            !selector_malformed(d0),
            doc_keys(d1) == doc_keys(d0).insert("selector"@),
            doc_strings(d1) == doc_strings(d0),
            doc_arrays(d1) == doc_arrays(d0),
            doc_table_arrays(d1) == doc_table_arrays(d0).insert("selector"@, rows),
            rows == selector_rows(d0),
            doc_table_arrays(d1).contains_key("selector"@),
            rows == doc_table_arrays(d1)["selector"@],
            n == rows.len(),
            i <= n,
            forall|k: int| 0 <= k < i ==> !row_is(#[trigger] rows[k], glob@),
        decreases n - i,
    {
        let s = doc_row_str(doc, "selector", i, "selector");
        let hit = match &s {
            Some(x) => str_eq(x.as_str(), glob),
            None => false,
        };
        if hit {
            proof {
                lemma_find_selector_at(rows, glob@, i as int);
            }
            doc_row_set_str(doc, "selector", i, "intent", intent);
            let ghost r1 = rows_set(rows, i as int, "intent"@, intent@);
            match note {
                Some(text) => {
                    doc_row_set_str(doc, "selector", i, "note", text);
                    proof {
                        assert(rows_set(r1, i as int, "note"@, text@) =~= upsert_rows(rows, glob@, intent@, opt_str(note)));
                    }
                },
                None => {
                    proof {
                        assert(r1 =~= upsert_rows(rows, glob@, intent@, opt_str(note)));
                    }
                },
            }
            proof {
                assert(doc_table_arrays(*doc) =~= doc_table_arrays(d0).insert("selector"@, upsert_rows(rows, glob@, intent@, opt_str(note))));
            }
            return Ok(());
        }
        proof {
            assert(!row_is(rows[i as int], glob@));
        }
        i = i + 1;
    }
    proof {
        lemma_find_selector(rows, glob@);
        if find_selector(rows, glob@) is Some {
            let j = find_selector(rows, glob@)->0;
            assert(!row_is(rows[j], glob@));
        }
    }
    doc_push_row(doc, "selector");
    let ghost r1 = rows.push(Map::empty());
    doc_row_set_str(doc, "selector", n, "selector", glob);
    let ghost r2 = rows_set(r1, n as int, "selector"@, glob@);
    doc_row_set_str(doc, "selector", n, "intent", intent);
    let ghost r3 = rows_set(r2, n as int, "intent"@, intent@);
    match note {
        Some(text) => {
            doc_row_set_str(doc, "selector", n, "note", text);
            proof {
                assert(rows_set(r3, n as int, "note"@, text@) =~= upsert_rows(rows, glob@, intent@, opt_str(note)));
            }
        },
        None => {
            proof {
                assert(r3 =~= upsert_rows(rows, glob@, intent@, opt_str(note)));
            }
        },
    }
    proof {
        assert(doc_table_arrays(*doc) =~= doc_table_arrays(d0).insert("selector"@, upsert_rows(rows, glob@, intent@, opt_str(note))));
    }
    Ok(())
}

/// The rows after setting `note` on the first row for `selector`.
pub open spec fn noted_rows(rows: Seq<Row>, selector: Seq<char>, text: Seq<char>) -> Seq<Row> {
    match find_selector(rows, selector) {
        Some(i) => rows_set(rows, i, "note"@, text),
        None => rows,
    }
}

/// Set `note` on the first selector row whose `selector` is exactly
/// `selector`. `true` when such a row was found and updated; `false`, with
/// the document unchanged, when there is none or no `[[selector]]` array.
pub fn selector_set_note(doc: &mut toml_edit::DocumentMut, selector: &str, text: &str) -> (r: bool)
    ensures
        r == (doc_table_arrays(*old(doc)).contains_key("selector"@) && find_selector(selector_rows(*old(doc)), selector@) is Some),
        !r ==> *final(doc) == *old(doc),
        r ==> doc_keys(*final(doc)) == doc_keys(*old(doc)),
        r ==> doc_strings(*final(doc)) == doc_strings(*old(doc)),
        r ==> doc_arrays(*final(doc)) == doc_arrays(*old(doc)),
        r ==> doc_table_arrays(*final(doc)) == doc_table_arrays(*old(doc)).insert("selector"@,
            noted_rows(selector_rows(*old(doc)), selector@, text@)),
{
    proof {
        reveal_strlit("selector");
        reveal_strlit("note");
    }
    let ghost d0 = *doc;
    if !doc_is_table_array(doc, "selector") {
        return false;
    }
    let ghost rows = doc_table_arrays(d0)["selector"@];
    let n = doc_row_count(doc, "selector");
    let mut i: usize = 0;
    while i < n
        invariant
            *doc == d0,
            d0 == *old(doc),
            doc_table_arrays(d0).contains_key("selector"@),
            rows == doc_table_arrays(d0)["selector"@],
            n == rows.len(),
            i <= n,
            forall|k: int| 0 <= k < i ==> !row_is(#[trigger] rows[k], selector@),
        decreases n - i,
    {
        let s = doc_row_str(doc, "selector", i, "selector");
        let hit = match &s {
            Some(x) => str_eq(x.as_str(), selector),
            None => false,
        };
        if hit {
            proof {
                lemma_find_selector_at(rows, selector@, i as int);
            }
            doc_row_set_str(doc, "selector", i, "note", text);
            return true;
        }
        proof {
            assert(!row_is(rows[i as int], selector@));
        }
        i = i + 1;
    }
    proof {
        lemma_find_selector(rows, selector@);
        if find_selector(rows, selector@) is Some {
            let j = find_selector(rows, selector@)->0;
            assert(!row_is(rows[j], selector@));
        }
    }
    false
}

/// Whether `s` is one of `globs`.
fn is_one_of(globs: &Vec<String>, s: &str) -> (r: bool)
    ensures
        r == views(globs@).contains(s@),
{
    let mut i: usize = 0;
    while i < globs.len()
        invariant
            i <= globs@.len(),
            forall|k: int| 0 <= k < i ==> #[trigger] globs@[k]@ != s@,
        decreases globs.len() - i,
    {
        if str_eq(globs[i].as_str(), s) {
            proof {
                assert(views(globs@)[i as int] == s@);
            }
            return true;
        }
        i = i + 1;
    }
    proof {
        if views(globs@).contains(s@) {
            let k = choose|k: int| 0 <= k < views(globs@).len() && views(globs@)[k] == s@;
            assert(globs@[k]@ == s@);
        }
    }
    false
}

/// Dropping the rows of `globs` from a prefix one row longer.
proof fn lemma_kept_rows_step(rows: Seq<Row>, globs: Seq<Seq<char>>, i: int)
    requires
        0 <= i < rows.len(),
    ensures
        kept_rows(rows.take(i + 1), globs) == if globs.contains(selector_of(rows[i])) {
            kept_rows(rows.take(i), globs)
        } else {
            kept_rows(rows.take(i), globs).push(rows[i])
        },
{
    assert(rows.take(i + 1).drop_last() =~= rows.take(i));
    assert(rows.take(i + 1).last() == rows[i]);
}

/// Remove every selector row whose selector is one of `globs` (a row without
/// a selector counts as `""`); the others keep their order. The result is how
/// many rows went. Without a `[[selector]]` array nothing changes and the
/// result is 0.
pub fn selector_remove_many(doc: &mut toml_edit::DocumentMut, globs: &Vec<String>) -> (r: usize)
    ensures
        !doc_table_arrays(*old(doc)).contains_key("selector"@) ==> r == 0 && *final(doc) == *old(doc),
        doc_table_arrays(*old(doc)).contains_key("selector"@) ==> r == selector_rows(*old(doc)).len()
            - kept_rows(selector_rows(*old(doc)), views(globs@)).len(),
        doc_table_arrays(*old(doc)).contains_key("selector"@) ==> doc_keys(*final(doc)) == doc_keys(*old(doc)),
        doc_table_arrays(*old(doc)).contains_key("selector"@) ==> doc_strings(*final(doc)) == doc_strings(*old(doc)),
        doc_table_arrays(*old(doc)).contains_key("selector"@) ==> doc_arrays(*final(doc)) == doc_arrays(*old(doc)),
        doc_table_arrays(*old(doc)).contains_key("selector"@) ==> doc_table_arrays(*final(doc))
            == doc_table_arrays(*old(doc)).insert("selector"@, kept_rows(selector_rows(*old(doc)), views(globs@))),
{
    proof {
        reveal_strlit("selector");
    }
    let ghost d0 = *doc;
    if !doc_is_table_array(doc, "selector") {
        return 0;
    }
    let ghost rows = doc_table_arrays(d0)["selector"@];
    let ghost gs = views(globs@);
    let n = doc_row_count(doc, "selector");
    let mut i: usize = 0;
    let mut j: usize = 0;
    proof {
        assert(rows.take(0) =~= Seq::<Row>::empty());
        assert(rows.skip(0) =~= rows);
        assert(doc_table_arrays(d0) =~= doc_table_arrays(d0).insert("selector"@, kept_rows(rows.take(0), gs) + rows.skip(0)));
    }
    while i < n
        invariant
            d0 == *old(doc),
            doc_table_arrays(d0).contains_key("selector"@),
            rows == doc_table_arrays(d0)["selector"@],
            gs == views(globs@),
            n == rows.len(),
            i <= n,
            j == kept_rows(rows.take(i as int), gs).len(),
            j <= i,
            doc_keys(*doc) == doc_keys(d0),
            doc_strings(*doc) == doc_strings(d0),
            doc_arrays(*doc) == doc_arrays(d0),
            doc_table_arrays(*doc) == doc_table_arrays(d0).insert("selector"@, kept_rows(rows.take(i as int), gs) + rows.skip(i as int)),
        decreases n - i,
    {
        let ghost cur = kept_rows(rows.take(i as int), gs) + rows.skip(i as int);
        proof {
            lemma_kept_rows_len(rows.take(i as int), gs);
            assert(cur[j as int] == rows[i as int]);
            assert(doc_table_arrays(*doc)["selector"@] == cur);
        }
        let s = doc_row_str(doc, "selector", j, "selector");
        let name = match s {
            Some(x) => x,
            None => String::new(),
        };
        proof {
            assert(name@ == selector_of(rows[i as int]));
        }
        let drop = is_one_of(globs, name.as_str());
        proof {
            lemma_kept_rows_step(rows, gs, i as int);
        }
        if drop {
            doc_remove_row(doc, "selector", j);
            proof {
                assert(cur.remove(j as int) =~= kept_rows(rows.take(i + 1), gs) + rows.skip(i + 1));
            }
        } else {
            proof {
                assert(cur =~= kept_rows(rows.take(i + 1), gs) + rows.skip(i + 1));
            }
            j = j + 1;
        }
        i = i + 1;
        proof {
            assert(doc_table_arrays(*doc) =~= doc_table_arrays(d0).insert("selector"@, kept_rows(rows.take(i as int), gs) + rows.skip(i as int)));
        }
    }
    proof {
        assert(rows.take(n as int) =~= rows);
        assert(rows.skip(n as int) =~= Seq::<Row>::empty());
        assert(kept_rows(rows, gs) + rows.skip(n as int) =~= kept_rows(rows, gs));
    }
    n - j
}

/// Dropping rows never lengthens them.
proof fn lemma_kept_rows_len(rows: Seq<Row>, globs: Seq<Seq<char>>)
    ensures
        kept_rows(rows, globs).len() <= rows.len(),
    decreases rows.len(),
{
    if rows.len() > 0 {
        lemma_kept_rows_len(rows.drop_last(), globs);
    }
}

/// The row an upsert leaves for `glob` is a row for `glob`, and upserting it
/// again changes nothing.
proof fn lemma_upserted_row(row: Row, glob: Seq<char>, intent: Seq<char>, note: Option<Seq<char>>)
    requires
        row_is(row, glob),
    ensures
        row_is(with_note(row.insert("intent"@, intent), note), glob),
        with_note(with_note(row.insert("intent"@, intent), note).insert("intent"@, intent), note)
            == with_note(row.insert("intent"@, intent), note),
{
    reveal_strlit("selector");
    reveal_strlit("intent");
    reveal_strlit("note");
    assert("selector"@.len() != "intent"@.len());
    assert("selector"@ != "note"@) by {
        assert("selector"@[0] != "note"@[0]);
    }
    assert("intent"@ != "note"@) by {
        assert("intent"@[0] != "note"@[0]);
    }
    let r1 = with_note(row.insert("intent"@, intent), note);
    assert(with_note(r1.insert("intent"@, intent), note) =~= r1);
}

/// Upserting a selector twice is the same as upserting it once: the second
/// upsert finds the row the first one left and rewrites it with the same
/// intent and note.
pub proof fn lemma_upsert_idempotent(rows: Seq<Row>, glob: Seq<char>, intent: Seq<char>, note: Option<Seq<char>>)
    ensures
        upsert_rows(upsert_rows(rows, glob, intent, note), glob, intent, note) == upsert_rows(rows, glob, intent, note),
{
    reveal_strlit("selector");
    lemma_find_selector(rows, glob);
    let u = upsert_rows(rows, glob, intent, note);
    match find_selector(rows, glob) {
        Some(i) => {
            lemma_upserted_row(rows[i], glob, intent, note);
            assert forall|k: int| 0 <= k < i implies !row_is(#[trigger] u[k], glob) by {
                assert(u[k] == rows[k]);
            }
            lemma_find_selector_at(u, glob, i);
            assert(upsert_rows(u, glob, intent, note) =~= u);
        },
        None => {
            let fresh = Map::<Seq<char>, Seq<char>>::empty().insert("selector"@, glob);
            assert(row_is(fresh, glob));
            lemma_upserted_row(fresh, glob, intent, note);
            assert(u.last() == with_note(fresh.insert("intent"@, intent), note));
            assert forall|k: int| 0 <= k < rows.len() implies !row_is(#[trigger] u[k], glob) by {
                assert(u[k] == rows[k]);
            }
            lemma_find_selector_at(u, glob, rows.len() as int);
            assert(upsert_rows(u, glob, intent, note) =~= u);
        },
    }
}

/// After an upsert of `glob` there is a row for `glob`, so setting its note
/// finds it.
pub proof fn lemma_upsert_then_note_finds(rows: Seq<Row>, glob: Seq<char>, intent: Seq<char>, note: Option<Seq<char>>)
    ensures
        find_selector(upsert_rows(rows, glob, intent, note), glob) is Some,
{
    reveal_strlit("selector");
    lemma_find_selector(rows, glob);
    let u = upsert_rows(rows, glob, intent, note);
    match find_selector(rows, glob) {
        Some(i) => {
            lemma_upserted_row(rows[i], glob, intent, note);
            lemma_find_selector(u, glob);
            if find_selector(u, glob) is None {
                assert(!row_is(u[i], glob));
            }
        },
        None => {
            let fresh = Map::<Seq<char>, Seq<char>>::empty().insert("selector"@, glob);
            lemma_upserted_row(fresh, glob, intent, note);
            lemma_find_selector(u, glob);
            if find_selector(u, glob) is None {
                assert(!row_is(u[rows.len() as int], glob));
            }
        },
    }
}

/// After a removal no row's selector is one of the removed globs, and every
/// other row stays.
pub proof fn lemma_removed_rows_gone(rows: Seq<Row>, globs: Seq<Seq<char>>)
    ensures
        forall|k: int| 0 <= k < kept_rows(rows, globs).len() ==> !globs.contains(selector_of(#[trigger] kept_rows(rows, globs)[k])),
        forall|k: int| 0 <= k < rows.len() && !globs.contains(selector_of(#[trigger] rows[k])) ==> kept_rows(rows, globs).contains(rows[k]),
    decreases rows.len(),
{
    if rows.len() > 0 {
        let d = rows.drop_last();
        lemma_removed_rows_gone(d, globs);
        let kd = kept_rows(d, globs);
        let kr = kept_rows(rows, globs);
        assert forall|k: int| 0 <= k < kr.len() implies !globs.contains(selector_of(#[trigger] kr[k])) by {
            if k < kd.len() {
                assert(kr[k] == kd[k]);
            }
        }
        assert forall|k: int| 0 <= k < rows.len() && !globs.contains(selector_of(#[trigger] rows[k])) implies kr.contains(rows[k]) by {
            if k < d.len() {
                assert(d[k] == rows[k]);
                assert(kd.contains(rows[k]));
                let m = choose|m: int| 0 <= m < kd.len() && kd[m] == rows[k];
                assert(kr[m] == rows[k]);
            } else {
                assert(kr[kr.len() - 1] == rows[k]);
            }
        }
    }
}

/// A selector as a slice lists it: the path or glob, its intent and its note.
#[derive(Debug, Clone, PartialEq, Eq)]
pub struct Selector {
    pub selector: String,
    pub intent: SelectorIntent,
    pub note: Option<String>,
}

/// The kebab-case spelling of an intent.
pub open spec fn intent_text(intent: SelectorIntent) -> Seq<char> {
    match intent {
        SelectorIntent::ScopeRelevant => "scope-relevant"@,
        SelectorIntent::DesignTarget => "design-target"@,
    }
}

/// One listed selector: the glob, the intent padded to sixteen characters and
/// the note (`-` without one), two spaces apart.
pub open spec fn selector_line(s: Selector) -> Seq<char> {
    s.selector@ + "  "@ + padded(intent_text(s.intent), 16) + "  "@ + match s.note {
        Some(n) => n@,
        None => "-"@,
    } + "\n"@
}

/// The selector listing: one line per selector, or `(no selectors)`.
pub open spec fn selector_listing_spec(sels: Seq<Selector>) -> Seq<char> {
    if sels.len() == 0 {
        "(no selectors)\n"@
    } else {
        concat_all(sels.map_values(|s: Selector| selector_line(s)))
    }
}

/// The listing of a slice's selectors, one line each; `(no selectors)` for
/// none.
pub fn selector_listing(sels: &Vec<Selector>) -> (out: String)
    ensures
        out@ == selector_listing_spec(sels@),
{
    if sels.len() == 0 {
        return String::from_str("(no selectors)\n");
    }
    let ghost lines = sels@.map_values(|s: Selector| selector_line(s));
    let mut out = String::new();
    let mut i: usize = 0;
    while i < sels.len()
        invariant
            i <= sels@.len(),
            lines == sels@.map_values(|s: Selector| selector_line(s)),
            out@ == concat_all(lines.take(i as int)),
        decreases sels.len() - i,
    {
        let s = &sels[i];
        let ghost before = out@;
        out.append(s.selector.as_str());
        out.append("  ");
        let intent = pad_right(crate::slice::serde_rename_kebab(s.intent), 16);
        out.append(intent.as_str());
        out.append("  ");
        match &s.note {
            Some(n) => out.append(n.as_str()),
            None => out.append("-"),
        }
        out.append("\n");
        proof {
            assert(lines.take(i + 1).drop_last() =~= lines.take(i as int));
            assert(out@ =~= before + selector_line(sels@[i as int]));
        }
        i = i + 1;
    }
    proof {
        assert(lines.take(sels@.len() as int) =~= lines);
    }
    out
}

} // verus!
