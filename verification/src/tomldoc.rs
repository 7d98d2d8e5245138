//! Edit-preserving TOML documents (`toml_edit::DocumentMut`) as the library
//! sees them: the top-level keys, the string values, the arrays of strings and
//! the arrays of tables, each table by its string-valued entries. Every edit
//! goes through one call of the crate, and its contract says what it does to
//! those four views.

use vstd::prelude::*;

verus! {

/// An edit-preserving TOML document; opaque, seen through the four views below.
#[verifier::external_type_specification]
#[verifier::external_body]
pub struct ExDocumentMut(toml_edit::DocumentMut);

/// The top-level keys that hold an item.
pub uninterp spec fn doc_keys(d: toml_edit::DocumentMut) -> Set<Seq<char>>;

/// The top-level keys that hold a string, with that string.
pub uninterp spec fn doc_strings(d: toml_edit::DocumentMut) -> Map<Seq<char>, Seq<char>>;

/// The top-level keys that hold an array value, with each element's string
/// (`None` for an element that is not a string).
pub uninterp spec fn doc_arrays(d: toml_edit::DocumentMut) -> Map<Seq<char>, Seq<Option<Seq<char>>>>;

/// The top-level keys that hold an array of tables, with each table's
/// string-valued entries, in order.
pub uninterp spec fn doc_table_arrays(d: toml_edit::DocumentMut) -> Map<Seq<char>, Seq<Map<Seq<char>, Seq<char>>>>;

/// The top-level keys that hold an array of tables, with each table's
/// integer-valued entries, in order.
pub uninterp spec fn doc_table_array_ints(d: toml_edit::DocumentMut) -> Map<Seq<char>, Seq<Map<Seq<char>, int>>>;

/// The string views of a sequence of optional strings.
pub open spec fn opt_views(v: Seq<Option<String>>) -> Seq<Option<Seq<char>>> {
    v.map_values(|x: Option<String>| match x {
        Some(s) => Some(s@),
        None => None,
    })
}

/// Each string as a present element.
pub open spec fn some_views(v: Seq<String>) -> Seq<Option<Seq<char>>> {
    v.map_values(|x: String| Some(x@))
}

/// An array of tables with no tables.
pub open spec fn no_rows() -> Seq<Map<Seq<char>, Seq<char>>> {
    Seq::empty()
}

/// An array of tables with no tables, by integer entries.
pub open spec fn no_int_rows() -> Seq<Map<Seq<char>, int>> {
    Seq::empty()
}

/// Whether the top-level table holds an item at `key`
/// (`Table::contains_key`, which does not count an empty `Item::None`); a key
/// that holds no item holds no string, array or array of tables either.
#[verifier::external_body]
pub(crate) fn doc_contains_key(d: &toml_edit::DocumentMut, key: &str) -> (r: bool)
    ensures
        r == doc_keys(*d).contains(key@),
        !r ==> !doc_strings(*d).contains_key(key@),
        !r ==> !doc_arrays(*d).contains_key(key@),
        !r ==> !doc_table_arrays(*d).contains_key(key@),
{
    d.as_table().contains_key(key)
}

/// The string at top-level `key` (`Table::get` then `Item::as_str`): `None`
/// when the key is absent or its item is not a string.
#[verifier::external_body]
pub(crate) fn doc_get_str(d: &toml_edit::DocumentMut, key: &str) -> (r: Option<String>)
    ensures
        match r {
            Some(s) => doc_strings(*d).contains_key(key@) && s@ == doc_strings(*d)[key@],
            None => !doc_strings(*d).contains_key(key@),
        },
{
    d.as_table().get(key).and_then(toml_edit::Item::as_str).map(String::from)
}

/// The array at top-level `key` (`Table::get` then `Item::as_array`), each
/// element handed out as its string, `None` for an element that is not one.
#[verifier::external_body]
pub(crate) fn doc_get_array(d: &toml_edit::DocumentMut, key: &str) -> (r: Option<Vec<Option<String>>>)
    ensures
        match r {
            Some(v) => doc_arrays(*d).contains_key(key@) && opt_views(v@) == doc_arrays(*d)[key@],
            None => !doc_arrays(*d).contains_key(key@),
        },
{
    d.as_table()
        .get(key)
        .and_then(toml_edit::Item::as_array)
        .map(|a| a.iter().map(|v| v.as_str().map(String::from)).collect())
}

/// Put a string at top-level `key`, replacing whatever item was there
/// (`Table::insert` with `toml_edit::value`).
#[verifier::external_body]
pub(crate) fn doc_set_str(d: &mut toml_edit::DocumentMut, key: &str, value: &str)
    ensures
        doc_keys(*final(d)) == doc_keys(*old(d)).insert(key@),
        doc_strings(*final(d)) == doc_strings(*old(d)).insert(key@, value@),
        doc_arrays(*final(d)) == doc_arrays(*old(d)).remove(key@),
        doc_table_arrays(*final(d)) == doc_table_arrays(*old(d)).remove(key@),
        doc_table_array_ints(*final(d)) == doc_table_array_ints(*old(d)).remove(key@),
{
    d.as_table_mut().insert(key, toml_edit::value(value));
}

/// Put an array of the given strings at top-level `key`, replacing whatever
/// item was there (an `Array` collected from the strings, then `Table::insert`).
#[verifier::external_body]
pub(crate) fn doc_set_str_array(d: &mut toml_edit::DocumentMut, key: &str, values: &Vec<String>)
    ensures
        doc_keys(*final(d)) == doc_keys(*old(d)).insert(key@),
        doc_strings(*final(d)) == doc_strings(*old(d)).remove(key@),
        doc_arrays(*final(d)) == doc_arrays(*old(d)).insert(key@, some_views(values@)),
        doc_table_arrays(*final(d)) == doc_table_arrays(*old(d)).remove(key@),
        doc_table_array_ints(*final(d)) == doc_table_array_ints(*old(d)).remove(key@),
{
    let fresh: toml_edit::Array = values.iter().map(String::as_str).collect();
    d.as_table_mut().insert(key, toml_edit::value(fresh));
}

/// Put an empty array of tables at top-level `key`, replacing whatever item
/// was there (`Table::insert` with `Item::ArrayOfTables(ArrayOfTables::new())`).
#[verifier::external_body]
pub(crate) fn doc_set_empty_table_array(d: &mut toml_edit::DocumentMut, key: &str)
    ensures
        doc_keys(*final(d)) == doc_keys(*old(d)).insert(key@),
        doc_strings(*final(d)) == doc_strings(*old(d)).remove(key@),
        doc_arrays(*final(d)) == doc_arrays(*old(d)).remove(key@),
        doc_table_arrays(*final(d)) == doc_table_arrays(*old(d)).insert(key@, no_rows()),
        doc_table_array_ints(*final(d)) == doc_table_array_ints(*old(d)).insert(key@, no_int_rows()),
{
    d.as_table_mut().insert(key, toml_edit::Item::ArrayOfTables(toml_edit::ArrayOfTables::new()));
}

/// Whether top-level `key` holds an array of tables
/// (`Table::contains_array_of_tables`).
#[verifier::external_body]
pub(crate) fn doc_is_table_array(d: &toml_edit::DocumentMut, key: &str) -> (r: bool)
    ensures
        r == doc_table_arrays(*d).contains_key(key@),
{
    d.as_table().contains_array_of_tables(key)
}

/// The number of tables in the array of tables at `key`
/// (`ArrayOfTables::len`).
#[verifier::external_body]
pub(crate) fn doc_row_count(d: &toml_edit::DocumentMut, key: &str) -> (r: usize)
    requires
        doc_table_arrays(*d).contains_key(key@),
    ensures
        r == doc_table_arrays(*d)[key@].len(),
        r == doc_table_array_ints(*d)[key@].len(),
{
    d.as_table().get(key).and_then(toml_edit::Item::as_array_of_tables).map_or(0, toml_edit::ArrayOfTables::len)
}

/// The string at `field` of table `i` in the array of tables at `key`
/// (`ArrayOfTables::get`, `Table::get`, `Item::as_str`).
#[verifier::external_body]
pub(crate) fn doc_row_str(d: &toml_edit::DocumentMut, key: &str, i: usize, field: &str) -> (r: Option<String>)
    requires
        doc_table_arrays(*d).contains_key(key@),
        i < doc_table_arrays(*d)[key@].len(),
    ensures
        match r {
            Some(s) => doc_table_arrays(*d)[key@][i as int].contains_key(field@)
                && s@ == doc_table_arrays(*d)[key@][i as int][field@],
            None => !doc_table_arrays(*d)[key@][i as int].contains_key(field@),
        },
{
    d.as_table()
        .get(key)
        .and_then(toml_edit::Item::as_array_of_tables)
        .and_then(|a| a.get(i))
        .and_then(|row| row.get(field))
        .and_then(toml_edit::Item::as_str)
        .map(String::from)
}

/// The array of tables at `key` after putting `value` at `field` of table `i`.
pub open spec fn rows_set(rows: Seq<Map<Seq<char>, Seq<char>>>, i: int, field: Seq<char>, value: Seq<char>) -> Seq<Map<Seq<char>, Seq<char>>> {
    rows.update(i, rows[i].insert(field, value))
}

/// Only the array of tables at `key` changed, from `rows` to `new_rows`.
pub open spec fn rows_replaced(old: toml_edit::DocumentMut, new: toml_edit::DocumentMut, key: Seq<char>, new_rows: Seq<Map<Seq<char>, Seq<char>>>) -> bool {
    &&& doc_keys(new) == doc_keys(old)
    &&& doc_strings(new) == doc_strings(old)
    &&& doc_arrays(new) == doc_arrays(old)
    &&& doc_table_arrays(new) == doc_table_arrays(old).insert(key, new_rows)
}

/// Put the string `value` at `field` of table `i` in the array of tables at
/// `key` (`ArrayOfTables::get_mut`, then `Table::insert` with
/// `toml_edit::value`). An array of tables holds only tables (the crate's own
/// `ArrayOfTables::remove` relies on it), so table `i` is there.
#[verifier::external_body]
pub(crate) fn doc_row_set_str(d: &mut toml_edit::DocumentMut, key: &str, i: usize, field: &str, value: &str)
    requires
        doc_table_arrays(*old(d)).contains_key(key@),
        i < doc_table_arrays(*old(d))[key@].len(),
    ensures
        rows_replaced(*old(d), *final(d), key@, rows_set(doc_table_arrays(*old(d))[key@], i as int, field@, value@)),
        doc_table_array_ints(*final(d)) == doc_table_array_ints(*old(d)).insert(key@,
            doc_table_array_ints(*old(d))[key@].update(i as int, doc_table_array_ints(*old(d))[key@][i as int].remove(field@))),
{
    if let Some(row) = d.as_table_mut().get_mut(key).and_then(toml_edit::Item::as_array_of_tables_mut).and_then(|a| a.get_mut(i)) {
        row.insert(field, toml_edit::value(value));
    }
}

/// Put the integer `value` at `field` of table `i` in the array of tables at
/// `key` (`ArrayOfTables::get_mut`, then `Table::insert` with
/// `toml_edit::value`), replacing whatever was at `field`.
#[verifier::external_body]
pub(crate) fn doc_row_set_int(d: &mut toml_edit::DocumentMut, key: &str, i: usize, field: &str, value: i64)
    requires
        doc_table_arrays(*old(d)).contains_key(key@),
        i < doc_table_arrays(*old(d))[key@].len(),
    ensures
        rows_replaced(*old(d), *final(d), key@, doc_table_arrays(*old(d))[key@].update(i as int,
            doc_table_arrays(*old(d))[key@][i as int].remove(field@))),
        doc_table_array_ints(*final(d)) == doc_table_array_ints(*old(d)).insert(key@,
            doc_table_array_ints(*old(d))[key@].update(i as int, doc_table_array_ints(*old(d))[key@][i as int].insert(field@, value as int))),
{
    if let Some(row) = d.as_table_mut().get_mut(key).and_then(toml_edit::Item::as_array_of_tables_mut).and_then(|a| a.get_mut(i)) {
        row.insert(field, toml_edit::value(value));
    }
}

/// Append an empty table to the array of tables at `key`
/// (`ArrayOfTables::push` with `Table::new()`).
#[verifier::external_body]
pub(crate) fn doc_push_row(d: &mut toml_edit::DocumentMut, key: &str)
    requires
        doc_table_arrays(*old(d)).contains_key(key@),
    ensures
        rows_replaced(*old(d), *final(d), key@, doc_table_arrays(*old(d))[key@].push(Map::empty())),
        doc_table_array_ints(*final(d)) == doc_table_array_ints(*old(d)).insert(key@,
            doc_table_array_ints(*old(d))[key@].push(Map::empty())),
{
    if let Some(rows) = d.as_table_mut().get_mut(key).and_then(toml_edit::Item::as_array_of_tables_mut) {
        rows.push(toml_edit::Table::new());
    }
}

/// Remove table `i` from the array of tables at `key`
/// (`ArrayOfTables::remove`, which shifts the later tables down).
#[verifier::external_body]
pub(crate) fn doc_remove_row(d: &mut toml_edit::DocumentMut, key: &str, i: usize)
    requires
        doc_table_arrays(*old(d)).contains_key(key@),
        i < doc_table_arrays(*old(d))[key@].len(),
    ensures
        rows_replaced(*old(d), *final(d), key@, doc_table_arrays(*old(d))[key@].remove(i as int)),
{
    if let Some(rows) = d.as_table_mut().get_mut(key).and_then(toml_edit::Item::as_array_of_tables_mut) {
        rows.remove(i);
    }
}

} // verus!
