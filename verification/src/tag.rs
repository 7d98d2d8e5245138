//! Tag normalisation: the lenient fold used for tag filters, and the strict
//! write-path normalisation that decides what lands in the store.

use vstd::prelude::*;
use crate::text::{trim, trim_spec, str_eq};
use crate::sorted::{SortedSet, strictly_ascending, lemma_ascending_unique};
use crate::tomldoc::{doc_keys, doc_strings, doc_arrays, doc_table_arrays, some_views, doc_contains_key,
    doc_get_array, doc_set_str, doc_set_str_array, opt_views};

verus! {

/// Entity kind prefixes that accept tags.
pub const TAGGABLE: [&'static str; 21] = [
    "SL", "ADR", "POL", "STD", "RFC", "ISS", "IMP", "CHR", "RSK", "IDE", "ASM", "CM", "DEC", "QUE",
    "CON", "EVD", "HYP", "PRD", "SPEC", "REQ", "REV",
];

/// The lowercase mapping of `s`, as `str::to_lowercase` computes it.
pub uninterp spec fn lowercase_of(s: Seq<char>) -> Seq<char>;

/// An ASCII capital letter lowered; any other character unchanged.
pub open spec fn ascii_lower(c: char) -> char {
    if 'A' <= c && c <= 'Z' {
        ((c as u32) + 32) as char
    } else {
        c
    }
}

/// Whether every character of `s` is ASCII.
pub open spec fn all_ascii(s: Seq<char>) -> bool {
    forall|i: int| 0 <= i < s.len() ==> (#[trigger] s[i] as u32) < 0x80
}

/// What `str::to_lowercase` gives for `s`: on ASCII text each capital letter
/// lowered and every other character kept; beyond ASCII, the named mapping.
pub open spec fn lowercase_spec(s: Seq<char>) -> Seq<char> {
    if all_ascii(s) {
        s.map_values(|c: char| ascii_lower(c))
    } else {
        lowercase_of(s)
    }
}

/// `str::to_lowercase`: the lowercase mapping of `s`, which on ASCII text
/// lowers `A`–`Z` and keeps every other character, as std documents.
#[verifier::external_body]
fn to_lowercase(s: &str) -> (r: String)
    ensures
        r@ == (if all_ascii(s@) { s@.map_values(|c: char| ascii_lower(c)) } else { lowercase_of(s@) }),
{
    s.to_lowercase()
}

/// The lenient fold for tag filters: trim, then lowercase; never an error.
pub fn fold_filter_tag(raw: &str) -> (r: String)
    ensures
        r@ == lowercase_spec(trim_spec(raw@)),
{
    let t = trim(raw);
    to_lowercase(t.as_str())
}

/// A character a stored tag may hold: `a-z`, `0-9`, `_`, `:`, `-`.
pub open spec fn tag_char(c: char) -> bool {
    ('a' <= c && c <= 'z') || ('0' <= c && c <= '9') || c == '_' || c == ':' || c == '-'
}

/// The verdict on a folded tag: empty, or a character outside the tag
/// alphabet, is an error naming the raw input; otherwise the tag itself.
pub open spec fn check_tag_spec(raw: Seq<char>, tag: Seq<char>) -> Result<Seq<char>, Seq<char>> {
    if tag.len() == 0 {
        Err("empty tag `"@ + raw + "` — tags must be non-empty `[a-z0-9_:-]`"@)
    } else if !(forall|i: int| 0 <= i < tag.len() ==> tag_char(#[trigger] tag[i])) {
        Err("invalid tag `"@ + raw + "` — tags must be `[a-z0-9_:-]` (lowercased, e.g. `area:backlog`)"@)
    } else {
        Ok(tag)
    }
}

/// Judge a tag already trimmed and lowercased from `raw`.
pub fn check_tag(raw: &str, tag: String) -> (r: Result<String, String>)
    ensures
        match check_tag_spec(raw@, tag@) {
            Ok(t) => r matches Ok(s) && s@ == t,
            Err(m) => r matches Err(s) && s@ == m,
        },
{
    let n = tag.as_str().unicode_len();
    if n == 0 {
        let mut m = String::from_str("empty tag `");
        m.append(raw);
        m.append("` — tags must be non-empty `[a-z0-9_:-]`");
        return Err(m);
    }
    let mut i: usize = 0;
    while i < n
        invariant
            i <= n,
            n == tag@.len(),
            forall|k: int| 0 <= k < i ==> tag_char(#[trigger] tag@[k]),
        decreases n - i,
    {
        let c = tag.as_str().get_char(i);
        if !(('a' <= c && c <= 'z') || ('0' <= c && c <= '9') || c == '_' || c == ':' || c == '-') {
            assert(!tag_char(tag@[i as int]));
            let mut m = String::from_str("invalid tag `");
            m.append(raw);
            m.append("` — tags must be `[a-z0-9_:-]` (lowercased, e.g. `area:backlog`)");
            return Err(m);
        }
        i = i + 1;
    }
    Ok(tag)
}

/// Normalise one tag on the write path: trim, lowercase, then judge it.
pub fn normalize_tag(raw: &str) -> (r: Result<String, String>)
    ensures
        match check_tag_spec(raw@, lowercase_spec(trim_spec(raw@))) {
            Ok(t) => r matches Ok(s) && s@ == t,
            Err(m) => r matches Err(s) && s@ == m,
        },
{
    let t = trim(raw);
    let tag = to_lowercase(t.as_str());
    check_tag(raw, tag)
}

/// Why a tag edit was refused.
#[derive(Debug, Clone, Copy, PartialEq, Eq, Structural)]
pub enum TagsEditError {
    /// The `tags` key holds something other than an array.
    NotAnArray,
}

impl TagsEditError {
    /// The message shown for the refusal.
    pub fn message(&self) -> (s: String)
        ensures
            s@ == "malformed backlog item: tags key exists but is not an array"@,
    {
        String::from_str("malformed backlog item: tags key exists but is not an array")
    }
}

/// The strings present among `xs`.
pub open spec fn present_strings(xs: Seq<Option<Seq<char>>>) -> Set<Seq<char>> {
    Set::new(|s: Seq<char>| exists|i: int| 0 <= i < xs.len() && xs[i] == Some(s))
}

/// The tags a document holds: the strings of its `tags` array, none when it
/// has no such array.
pub open spec fn current_tags(d: toml_edit::DocumentMut) -> Set<Seq<char>> {
    if doc_arrays(d).contains_key("tags"@) {
        present_strings(doc_arrays(d)["tags"@])
    } else {
        Set::empty()
    }
}

/// The set algebra of a tag edit: `(current ∪ adds) ∖ removes`.
pub open spec fn tag_edit(cur: Set<Seq<char>>, adds: Set<Seq<char>>, removes: Set<Seq<char>>) -> Set<Seq<char>> {
    cur.union(adds).difference(removes)
}

/// A stored tag array: strings only, strictly ascending, exactly `tags`.
pub open spec fn stored_sorted(xs: Seq<Option<Seq<char>>>, tags: Set<Seq<char>>) -> bool {
    &&& forall|i: int| 0 <= i < xs.len() ==> #[trigger] xs[i] is Some
    &&& strictly_ascending(xs.map_values(|o: Option<Seq<char>>| o.unwrap()))
    &&& present_strings(xs) == tags
}

/// The `tags` key holds an item that is not an array.
pub open spec fn tags_malformed(d: toml_edit::DocumentMut) -> bool {
    doc_keys(d).contains("tags"@) && !doc_arrays(d).contains_key("tags"@)
}

/// `new` is `old` with an empty `tags` array added.
pub open spec fn tags_seeded(old: toml_edit::DocumentMut, new: toml_edit::DocumentMut) -> bool {
    &&& doc_keys(new) == doc_keys(old).insert("tags"@)
    &&& doc_strings(new) == doc_strings(old).remove("tags"@)
    &&& doc_arrays(new) == doc_arrays(old).insert("tags"@, Seq::empty())
    &&& doc_table_arrays(new) == doc_table_arrays(old).remove("tags"@)
}

/// `new` is `old` with `tags` replaced by the sorted array of `tags`, and
/// `updated` set to `today` when `old` has an `updated` key.
pub open spec fn tags_written(old: toml_edit::DocumentMut, new: toml_edit::DocumentMut, tags: Set<Seq<char>>, today: Seq<char>) -> bool {
    let stamp = doc_keys(old).contains("updated"@);
    &&& doc_keys(new) == doc_keys(old).insert("tags"@)
    &&& doc_arrays(new).contains_key("tags"@)
    &&& stored_sorted(doc_arrays(new)["tags"@], tags)
    &&& doc_strings(new) == if stamp {
        doc_strings(old).remove("tags"@).insert("updated"@, today)
    } else {
        doc_strings(old).remove("tags"@)
    }
    &&& doc_arrays(new) == if stamp {
        doc_arrays(old).insert("tags"@, doc_arrays(new)["tags"@]).remove("updated"@)
    } else {
        doc_arrays(old).insert("tags"@, doc_arrays(new)["tags"@])
    }
    &&& doc_table_arrays(new) == if stamp {
        doc_table_arrays(old).remove("tags"@).remove("updated"@)
    } else {
        doc_table_arrays(old).remove("tags"@)
    }
}

/// The outcome of a tag edit on a document that has no malformed `tags`: it
/// reports whether the tag set changed; the document holds the edited set;
/// an unchanged set leaves the document as it was (but for seeding an absent
/// `tags` with `[]`), a changed one is written sorted and stamps `updated`.
pub open spec fn tags_edit_outcome(
    old: toml_edit::DocumentMut,
    new: toml_edit::DocumentMut,
    adds: Set<Seq<char>>,
    removes: Set<Seq<char>>,
    today: Seq<char>,
    r: Result<bool, TagsEditError>,
) -> bool {
    let edited = tag_edit(current_tags(old), adds, removes);
    &&& r == Ok::<bool, TagsEditError>(edited != current_tags(old))
    &&& current_tags(new) == edited
    &&& edited == current_tags(old) ==> if doc_keys(old).contains("tags"@) {
        new == old
    } else {
        tags_seeded(old, new)
    }
    &&& edited != current_tags(old) ==> tags_written(old, new, edited, today)
}

/// Apply a tag add/remove edit to a held document, keeping everything else in
/// it. An absent `tags` is first seeded as `[]`; a `tags` that is not an array
/// is refused. The new set is `(current ∪ adds) ∖ removes`; when it equals the
/// current set (compared as sets) nothing is written and the result is
/// `false`. Otherwise `tags` becomes the new set in ascending order, `updated`
/// is set to `today` when that key exists, and the result is `true`.
pub fn apply_tags_set(doc: &mut toml_edit::DocumentMut, adds: &SortedSet, removes: &SortedSet, today: &str) -> (r: Result<bool, TagsEditError>)
    requires
        adds.wf(),
        removes.wf(),
    ensures
        tags_malformed(*old(doc)) ==> r == Err::<bool, TagsEditError>(TagsEditError::NotAnArray) && *final(doc) == *old(doc),
        !tags_malformed(*old(doc)) ==> tags_edit_outcome(*old(doc), *final(doc), adds.members(), removes.members(), today@, r),
{
    proof {
        reveal_strlit("tags");
        reveal_strlit("updated");
    }
    let ghost d0 = *doc;
    let has_tags = doc_contains_key(doc, "tags");
    if !has_tags {
        let empty: Vec<String> = Vec::new();
        doc_set_str_array(doc, "tags", &empty);
        assert(some_views(empty@) =~= Seq::<Option<Seq<char>>>::empty());
    }
    let ghost d1 = *doc;
    let arr = match doc_get_array(doc, "tags") {
        Some(a) => a,
        None => {
            return Err(TagsEditError::NotAnArray);
        },
    };
    let ghost xs = opt_views(arr@);
    assert(xs == doc_arrays(d1)["tags"@]);
    // The current set, read off the array in any order.
    let mut cur = SortedSet::new();
    let mut i: usize = 0;
    while i < arr.len()
        invariant
            cur.wf(),
            i <= arr@.len(),
            xs == opt_views(arr@),
            forall|x: Seq<char>| #[trigger] cur.view().contains(x) <==> (exists|k: int| 0 <= k < i && xs[k] == Some(x)),
        decreases arr.len() - i,
    {
        match &arr[i] {
            Some(s) => {
                cur.insert(s.clone());
                assert(xs[i as int] == Some(s@));
            },
            None => {
                assert(xs[i as int] is None);
            },
        }
        proof {
            assert forall|x: Seq<char>| #[trigger] cur.view().contains(x) <==> (exists|k: int| 0 <= k < i + 1 && xs[k] == Some(x)) by {
                if exists|k: int| 0 <= k < i + 1 && xs[k] == Some(x) {
                    let k = choose|k: int| 0 <= k < i + 1 && xs[k] == Some(x);
                    if k < i {
                        assert(exists|k2: int| 0 <= k2 < i && xs[k2] == Some(x));
                    }
                }
                if cur.view().contains(x) && !(exists|k: int| 0 <= k < i && xs[k] == Some(x)) {
                    assert(xs[i as int] == Some(x));
                }
            }
        }
        i = i + 1;
    }
    proof {
        assert(cur.view().to_set() =~= current_tags(d0)) by {
            if !has_tags {
                assert(xs.len() == 0);
            }
            assert forall|x: Seq<char>| cur.view().to_set().contains(x) <==> current_tags(d0).contains(x) by {
                assert(cur.view().to_set().contains(x) <==> cur.view().contains(x));
            }
        }
    }
    // The edited set: kept members of the current set, then kept additions.
    let mut edited = SortedSet::new();
    let mut j: usize = 0;
    while j < cur.len()
        invariant
            cur.wf(),
            edited.wf(),
            removes.wf(),
            j <= cur.view().len(),
            forall|x: Seq<char>| #[trigger] edited.view().contains(x) <==>
                ((exists|k: int| 0 <= k < j && cur.view()[k] == x) && !removes.view().contains(x)),
        decreases cur.view().len() - j,
    {
        let x = cur.at(j);
        if !removes.contains(x.as_str()) {
            edited.insert(x.clone());
        }
        proof {
            let cx = cur.view()[j as int];
            assert forall|y: Seq<char>| #[trigger] edited.view().contains(y) <==>
                ((exists|k: int| 0 <= k < j + 1 && cur.view()[k] == y) && !removes.view().contains(y)) by {
                if exists|k: int| 0 <= k < j + 1 && cur.view()[k] == y {
                    let k = choose|k: int| 0 <= k < j + 1 && cur.view()[k] == y;
                    if k < j {
                        assert(exists|k2: int| 0 <= k2 < j && cur.view()[k2] == y);
                    }
                }
                if edited.view().contains(y) && !(exists|k: int| 0 <= k < j && cur.view()[k] == y) {
                    assert(cur.view()[j as int] == y);
                }
            }
        }
        j = j + 1;
    }
    let mut a: usize = 0;
    while a < adds.len()
        invariant
            cur.wf(),
            edited.wf(),
            adds.wf(),
            removes.wf(),
            a <= adds.view().len(),
            forall|x: Seq<char>| #[trigger] edited.view().contains(x) <==>
                ((cur.view().contains(x) || exists|k: int| 0 <= k < a && adds.view()[k] == x) && !removes.view().contains(x)),
        decreases adds.view().len() - a,
    {
        let x = adds.at(a);
        if !removes.contains(x.as_str()) {
            edited.insert(x.clone());
        }
        proof {
            assert forall|y: Seq<char>| #[trigger] edited.view().contains(y) <==>
                ((cur.view().contains(y) || exists|k: int| 0 <= k < a + 1 && adds.view()[k] == y) && !removes.view().contains(y)) by {
                if exists|k: int| 0 <= k < a + 1 && adds.view()[k] == y {
                    let k = choose|k: int| 0 <= k < a + 1 && adds.view()[k] == y;
                    if k < a {
                        assert(exists|k2: int| 0 <= k2 < a && adds.view()[k2] == y);
                    }
                }
                if edited.view().contains(y) && !cur.view().contains(y) && !(exists|k: int| 0 <= k < a && adds.view()[k] == y) {
                    assert(adds.view()[a as int] == y);
                }
            }
        }
        a = a + 1;
    }
    let ghost target = tag_edit(current_tags(d0), adds.members(), removes.members());
    proof {
        assert(edited.view().to_set() =~= target) by {
            assert forall|x: Seq<char>| edited.view().to_set().contains(x) <==> target.contains(x) by {
                assert(cur.view().to_set().contains(x) <==> cur.view().contains(x));
                if exists|k: int| 0 <= k < adds.view().len() && adds.view()[k] == x {
                    assert(adds.view().contains(x));
                }
                if adds.view().contains(x) {
                    let k = choose|k: int| 0 <= k < adds.view().len() && adds.view()[k] == x;
                    assert(exists|k2: int| 0 <= k2 < adds.view().len() && adds.view()[k2] == x);
                }
            }
        }
        cur.lemma_ascending();
        edited.lemma_ascending();
    }
    // Compare as sets: both listings ascend, so equal sets list equally.
    let mut same = edited.len() == cur.len();
    let mut k: usize = 0;
    while same && k < cur.len()
        invariant
            same ==> edited.view().len() == cur.view().len(),
            k <= cur.view().len(),
            same ==> forall|m: int| 0 <= m < k ==> edited.view()[m] == cur.view()[m],
            !same ==> edited.view() != cur.view(),
        decreases cur.view().len() - k,
    {
        if !str_eq(edited.at(k).as_str(), cur.at(k).as_str()) {
            same = false;
        }
        k = k + 1;
    }
    proof {
        if same {
            assert(edited.view() =~= cur.view());
        }
        if target == current_tags(d0) {
            lemma_ascending_unique(edited.view(), cur.view());
        }
    }
    if same {
        proof {
            assert(present_strings(xs) =~= cur.view().to_set()) by {
                assert forall|x: Seq<char>| present_strings(xs).contains(x) <==> cur.view().to_set().contains(x) by {
                    assert(cur.view().to_set().contains(x) <==> cur.view().contains(x));
                }
            }
            assert(current_tags(d1) == current_tags(d0));
            assert(target == current_tags(d0));
        }
        return Ok(false);
    }
    let mut list: Vec<String> = Vec::new();
    let mut m: usize = 0;
    while m < edited.len()
        invariant
            edited.wf(),
            m <= edited.view().len(),
            list@.len() == m,
            forall|q: int| 0 <= q < m ==> #[trigger] list@[q]@ == edited.view()[q],
        decreases edited.view().len() - m,
    {
        list.push(edited.at(m).clone());
        m = m + 1;
    }
    doc_set_str_array(doc, "tags", &list);
    let ghost d2 = *doc;
    proof {
        let sv = some_views(list@);
        assert(sv.map_values(|o: Option<Seq<char>>| o.unwrap()) =~= edited.view());
        assert(present_strings(sv) =~= target) by {
            assert forall|x: Seq<char>| present_strings(sv).contains(x) <==> target.contains(x) by {
                if present_strings(sv).contains(x) {
                    let q = choose|q: int| 0 <= q < sv.len() && sv[q] == Some(x);
                    assert(edited.view()[q] == x);
                    assert(edited.view().to_set().contains(x));
                }
                if target.contains(x) {
                    assert(edited.view().to_set().contains(x));
                    let q = choose|q: int| 0 <= q < edited.view().len() && edited.view()[q] == x;
                    assert(sv[q] == Some(x));
                }
            }
        }
        assert(doc_keys(d2) =~= doc_keys(d0).insert("tags"@));
        assert(doc_strings(d2) =~= doc_strings(d0).remove("tags"@));
        assert(doc_table_arrays(d2) =~= doc_table_arrays(d0).remove("tags"@));
        assert(doc_arrays(d2) =~= doc_arrays(d0).insert("tags"@, sv));
    }
    let ghost sv = some_views(list@);
    if doc_contains_key(doc, "updated") {
        doc_set_str(doc, "updated", today);
        proof {
            reveal_strlit("tags");
            reveal_strlit("updated");
            assert("tags"@.len() != "updated"@.len());
            assert(doc_keys(*doc) =~= doc_keys(d0).insert("tags"@));
            assert(doc_arrays(*doc)["tags"@] == sv);
            assert(doc_arrays(*doc) =~= doc_arrays(d0).insert("tags"@, sv).remove("updated"@));
        }
    }
    proof {
        assert(doc_arrays(*doc)["tags"@] == sv);
        assert(current_tags(*doc) == target);
        assert(target != current_tags(d0));
        assert(stored_sorted(sv, target));
        assert(tags_written(d0, *doc, target, today@));
    }
    Ok(true)
}

/// Re-applying a tag edit to the set it produced gives that set again, so
/// the second `apply_tags_set` with the same adds and removes reports `false`.
pub proof fn lemma_tag_edit_idempotent(cur: Set<Seq<char>>, adds: Set<Seq<char>>, removes: Set<Seq<char>>)
    ensures
        tag_edit(tag_edit(cur, adds, removes), adds, removes) == tag_edit(cur, adds, removes),
{
    assert(tag_edit(tag_edit(cur, adds, removes), adds, removes) =~= tag_edit(cur, adds, removes));
}

/// A stored tag normalises to itself: normalising is idempotent.
pub proof fn lemma_normalize_tag_idempotent(raw: Seq<char>, t: Seq<char>)
    requires
        check_tag_spec(raw, lowercase_spec(trim_spec(raw))) == Ok::<Seq<char>, Seq<char>>(t),
    ensures
        check_tag_spec(t, lowercase_spec(trim_spec(t))) == Ok::<Seq<char>, Seq<char>>(t),
{
    let tag = lowercase_spec(trim_spec(raw));
    assert(tag == t);
    assert(t.len() > 0);
    assert(forall|i: int| 0 <= i < t.len() ==> tag_char(#[trigger] t[i]));
    assert(!crate::text::unicode_whitespace(t[0]));
    assert(crate::text::leading_ws(t) == 0);
    let rest = t.skip(0);
    assert(rest =~= t);
    assert(!crate::text::unicode_whitespace(rest.last()));
    assert(crate::text::trailing_ws(rest) == 0);
    assert(trim_spec(t) =~= t);
    assert(all_ascii(t));
    assert(t.map_values(|c: char| ascii_lower(c)) =~= t);
}


/// A judged tag is stored exactly when it is non-empty and every character
/// is a lowercase ASCII letter, a digit, `_`, `:` or `-`; any other
/// character refuses it, and a stored tag is the folded text itself.
pub proof fn lemma_stored_tags_use_the_tag_alphabet(raw: Seq<char>, tag: Seq<char>)
    ensures
        check_tag_spec(raw, tag) is Ok <==> (tag.len() > 0 && forall|i: int| 0 <= i < tag.len() ==> {
            let c = #[trigger] tag[i];
            ('a' <= c && c <= 'z') || ('0' <= c && c <= '9') || c == '_' || c == ':' || c == '-'
        }),
        check_tag_spec(raw, tag) matches Ok(t) ==> t == tag,
        (exists|i: int| 0 <= i < tag.len() && #[trigger] tag[i] == '.') ==> check_tag_spec(raw, tag) is Err,
{
}

} // verus!
