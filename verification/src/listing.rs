//! What every listed kind shares: the `<PREFIX>-<NNN>` id form (the numeric
//! id zero-padded to three digits), the list metadata read from an entity's
//! TOML, and the fields a list filter matches against.

use vstd::prelude::*;
use crate::text::{copy_strings, join, join_spec, str_eq, views, zero_padded, zero_padded_string};

verus! {

/// `<prefix>-<id>` with the id zero-padded to three digits (`SL-007`, `SPEC-120`).
pub open spec fn canonical_id_spec(prefix: Seq<char>, id: nat) -> Seq<char> {
    prefix + "-"@ + zero_padded(id, 3)
}

/// The canonical id of `id` under `prefix`, e.g. `SL-007`.
pub fn canonical_id(prefix: &str, id: u32) -> (s: String)
    ensures
        s@ == canonical_id_spec(prefix@, id as nat),
{
    let mut s = String::from_str(prefix);
    s.append("-");
    let n = zero_padded_string(id as u64, 3);
    s.append(n.as_str());
    s
}

/// The list metadata of an entity.
#[derive(Debug, Clone, PartialEq, Eq)]
pub struct Meta {
    pub id: u32,
    pub slug: String,
    pub title: String,
    pub status: String,
    pub tags: Vec<String>,
}

/// The fields a list filter matches: the canonical id, slug, title, status
/// and tags.
#[derive(Debug, Clone, PartialEq, Eq)]
pub struct FilterFields {
    pub canonical: String,
    pub slug: String,
    pub title: String,
    pub status: String,
    pub tags: Vec<String>,
}

/// Whether a list shows an entity with `status`: with statuses asked for, iff
/// its status is one of them; otherwise iff `--all` is given or the kind does
/// not hide that status.
pub open spec fn status_selected_spec(status: Seq<char>, hidden: bool, all: bool, statuses: Seq<Seq<char>>) -> bool {
    if statuses.len() > 0 {
        statuses.contains(status)
    } else {
        all || !hidden
    }
}

/// Whether a list shows an entity with `status`, `hidden` saying whether its
/// kind hides that status by default.
pub fn status_selected(status: &str, hidden: bool, all: bool, statuses: &Vec<String>) -> (r: bool)
    ensures
        r == status_selected_spec(status@, hidden, all, statuses@.map_values(|s: String| s@)),
{
    let ghost sv = statuses@.map_values(|s: String| s@);
    if statuses.len() == 0 {
        return all || !hidden;
    }
    let mut i: usize = 0;
    while i < statuses.len()
        invariant
            i <= statuses@.len(),
            sv == statuses@.map_values(|s: String| s@),
            forall|k: int| 0 <= k < i ==> sv[k] != status@,
        decreases statuses.len() - i,
    {
        if str_eq(statuses[i].as_str(), status) {
            proof {
                assert(sv[i as int] == status@);
            }
            return true;
        }
        i = i + 1;
    }
    false
}

/// Whether every status asked for is one the kind knows.
pub open spec fn all_known(given: Seq<Seq<char>>, known: Seq<Seq<char>>) -> bool {
    forall|i: int| 0 <= i < given.len() ==> known.contains(#[trigger] given[i])
}

/// Whether `m` refuses the first status asked for that the kind does not know.
pub open spec fn refuses_first_unknown(given: Seq<Seq<char>>, known: Seq<Seq<char>>, m: Seq<char>) -> bool {
    exists|i: int| 0 <= i < given.len() && !known.contains(#[trigger] given[i])
        && (forall|j: int| 0 <= j < i ==> known.contains(#[trigger] given[j]))
        && m == unknown_status_message(given[i], known)
}

/// The refusal of an unknown `--status` value: it names the value and the
/// statuses the kind knows.
pub open spec fn unknown_status_message(bad: Seq<char>, known: Seq<Seq<char>>) -> Seq<char> {
    "unknown status `"@ + bad + "` (known: "@ + join_spec(known, ", "@) + ")"@
}

/// Guard `--status` against a kind's vocabulary: every value asked for must
/// be a status the kind knows; the first that is not is refused, with the
/// known set.
pub fn validate_statuses(given: &Vec<String>, known: &[&str]) -> (r: Result<(), String>)
    ensures
        r is Ok <==> all_known(views(given@), known@.map_values(|k: &str| k@)),
        r matches Err(m) ==> refuses_first_unknown(views(given@), known@.map_values(|k: &str| k@), m@),
{
    let ghost kv = known@.map_values(|k: &str| k@);
    let mut i: usize = 0;
    while i < given.len()
        invariant
            i <= given@.len(),
            kv == known@.map_values(|k: &str| k@),
            forall|j: int| 0 <= j < i ==> kv.contains(#[trigger] given@[j]@),
        decreases given.len() - i,
    {
        let g = given[i].as_str();
        let mut found = false;
        let mut k: usize = 0;
        while k < known.len()
            invariant
                k <= known@.len(),
                kv == known@.map_values(|k: &str| k@),
                g@ == given@[i as int]@,
                found <==> exists|x: int| 0 <= x < k && kv[x] == g@,
            decreases known.len() - k,
        {
            proof {
                assert(kv[k as int] == known@[k as int]@);
            }
            if str_eq(known[k], g) {
                found = true;
            }
            k = k + 1;
        }
        if !found {
            proof {
                assert(!kv.contains(given@[i as int]@));
                assert(views(given@)[i as int] == given@[i as int]@);
                assert forall|j: int| 0 <= j < i implies kv.contains(#[trigger] views(given@)[j]) by {
                    assert(views(given@)[j] == given@[j]@);
                }
                assert(!all_known(views(given@), kv));
            }
            let mut names: Vec<String> = Vec::new();
            let mut j: usize = 0;
            while j < known.len()
                invariant
                    j <= known@.len(),
                    kv == known@.map_values(|k: &str| k@),
                    views(names@) == kv.take(j as int),
                decreases known.len() - j,
            {
                proof {
                    assert(kv[j as int] == known@[j as int]@);
                }
                let ghost b = views(names@);
                let name = String::from_str(known[j]);
                names.push(name);
                assert(views(names@) =~= b.push(kv[j as int]));
                j = j + 1;
                assert(kv.take(j as int) =~= kv.take(j - 1).push(kv[j - 1]));
            }
            assert(kv.take(known@.len() as int) =~= kv);
            let mut m = String::from_str("unknown status `");
            m.append(g);
            m.append("` (known: ");
            let listed = join(&names, ", ");
            m.append(listed.as_str());
            m.append(")");
            proof {
                assert(refuses_first_unknown(views(given@), kv, m@));
            }
            return Err(m);
        }
        proof {
            let x = choose|x: int| 0 <= x < known@.len() && kv[x] == g@;
            assert(kv.contains(given@[i as int]@));
        }
        i = i + 1;
    }
    proof {
        assert forall|j: int| 0 <= j < views(given@).len() implies kv.contains(#[trigger] views(given@)[j]) by {
            assert(views(given@)[j] == given@[j]@);
        }
    }
    Ok(())
}

/// An entity's list metadata as plain values.
pub open spec fn meta_view(m: Meta) -> (u32, Seq<char>, Seq<char>, Seq<char>, Seq<Seq<char>>) {
    (m.id, m.slug@, m.title@, m.status@, views(m.tags@))
}

/// Whether a list keeps an entity in `status`, for a kind that hides the
/// statuses in `hide` by default.
pub open spec fn keeps(status: Seq<char>, hide: Seq<Seq<char>>, all: bool, statuses: Seq<Seq<char>>) -> bool {
    status_selected_spec(status, hide.contains(status), all, statuses)
}

/// The entities a list keeps, in their order, as plain values.
pub open spec fn selected_views(metas: Seq<Meta>, hide: Seq<Seq<char>>, all: bool, statuses: Seq<Seq<char>>)
    -> Seq<(u32, Seq<char>, Seq<char>, Seq<char>, Seq<Seq<char>>)>
    decreases metas.len(),
{
    if metas.len() == 0 {
        Seq::empty()
    } else {
        let before = selected_views(metas.drop_last(), hide, all, statuses);
        if keeps(metas.last().status@, hide, all, statuses) {
            before.push(meta_view(metas.last()))
        } else {
            before
        }
    }
}

/// A copy of `m`, equal to it as plain values.
fn copy_meta(m: &Meta) -> (r: Meta)
    ensures
        meta_view(r) == meta_view(*m),
{
    Meta { id: m.id, slug: m.slug.clone(), title: m.title.clone(), status: m.status.clone(), tags: copy_strings(&m.tags) }
}

/// Whether `status` is one of `hide`.
pub fn hidden_in(status: &str, hide: &[&str]) -> (r: bool)
    ensures
        r == hide@.map_values(|h: &str| h@).contains(status@),
{
    let ghost hv = hide@.map_values(|h: &str| h@);
    let mut k: usize = 0;
    while k < hide.len()
        invariant
            k <= hide@.len(),
            hv == hide@.map_values(|h: &str| h@),
            forall|x: int| 0 <= x < k ==> hv[x] != status@,
        decreases hide.len() - k,
    {
        if str_eq(hide[k], status) {
            assert(hv[k as int] == status@);
            return true;
        }
        k = k + 1;
    }
    false
}

/// The entities a list shows, by ascending id: those whose status the
/// selection keeps (`hide` names the statuses the kind hides by default).
/// Entities with equal ids keep no particular order among themselves.
pub fn select_listed(metas: &Vec<Meta>, hide: &[&str], all: bool, statuses: &Vec<String>) -> (out: Vec<Meta>)
    ensures
        forall|a: int, b: int| 0 <= a < b < out@.len() ==> (#[trigger] out@[a]).id <= (#[trigger] out@[b]).id,
        out@.map_values(|m: Meta| meta_view(m)).to_multiset()
            == selected_views(metas@, hide@.map_values(|h: &str| h@), all, views(statuses@)).to_multiset(),
{
    let ghost hv = hide@.map_values(|h: &str| h@);
    let ghost sv = views(statuses@);
    let mut out: Vec<Meta> = Vec::new();
    proof {
        assert(out@.map_values(|m: Meta| meta_view(m)) =~= selected_views(metas@.take(0), hv, all, sv));
    }
    let mut i: usize = 0;
    while i < metas.len()
        invariant
            i <= metas@.len(),
            hv == hide@.map_values(|h: &str| h@),
            sv == views(statuses@),
            forall|a: int, b: int| 0 <= a < b < out@.len() ==> (#[trigger] out@[a]).id <= (#[trigger] out@[b]).id,
            out@.map_values(|m: Meta| meta_view(m)).to_multiset()
                == selected_views(metas@.take(i as int), hv, all, sv).to_multiset(),
        decreases metas.len() - i,
    {
        let m = &metas[i];
        proof {
            assert(metas@.take(i + 1).drop_last() =~= metas@.take(i as int));
            assert(metas@.take(i + 1).last() == metas@[i as int]);
        }
        let ghost pre = selected_views(metas@.take(i as int), hv, all, sv);
        let ghost outv0 = out@.map_values(|m: Meta| meta_view(m));
        let hidden = hidden_in(m.status.as_str(), hide);
        let keep = status_selected(m.status.as_str(), hidden, all, statuses);
        proof {
            assert(keep == keeps(m.status@, hv, all, sv));
            if keep {
                assert(selected_views(metas@.take(i + 1), hv, all, sv) == pre.push(meta_view(*m)));
            } else {
                assert(selected_views(metas@.take(i + 1), hv, all, sv) == pre);
            }
        }
        if keep {
            let mut j: usize = 0;
            while j < out.len() && out[j].id <= m.id
                invariant
                    j <= out@.len(),
                    forall|x: int| 0 <= x < j ==> (#[trigger] out@[x]).id <= m.id,
                decreases out.len() - j,
            {
                j = j + 1;
            }
            let ghost before = out@;
            let c = copy_meta(m);
            out.insert(j, c);
            proof {
                assert(out@ == before.insert(j as int, c));
                assert(out@.map_values(|m: Meta| meta_view(m))
                    =~= before.map_values(|m: Meta| meta_view(m)).insert(j as int, meta_view(c)));
                vstd::seq_lib::to_multiset_insert(outv0, j as int, meta_view(*m));
                vstd::seq_lib::to_multiset_build(pre, meta_view(*m));
                assert forall|a: int, b: int| 0 <= a < b < out@.len() implies (#[trigger] out@[a]).id <= (#[trigger] out@[b]).id by {
                    if b < j {
                        assert(out@[a] == before[a] && out@[b] == before[b]);
                    } else if b == j {
                        assert(out@[a] == before[a]);
                    } else if a == j {
                        assert(out@[b] == before[b - 1]);
                        if b - 1 > j {
                            assert(before[j as int].id <= before[b - 1].id);
                        }
                    } else if a < j {
                        assert(out@[a] == before[a] && out@[b] == before[b - 1]);
                    } else {
                        assert(out@[a] == before[a - 1] && out@[b] == before[b - 1]);
                    }
                }
            }
        }
        i = i + 1;
    }
    proof {
        assert(metas@.take(metas@.len() as int) =~= metas@);
    }
    out
}


/// With statuses asked for, an entity is listed exactly when its status is
/// one of them, wherever it stands among them; the hide-set and `--all` no
/// longer matter.
pub proof fn lemma_asked_statuses_select_by_membership(status: Seq<char>, hidden: bool, all: bool, statuses: Seq<Seq<char>>)
    requires
        statuses.len() > 0,
    ensures
        status_selected_spec(status, hidden, all, statuses) <==> exists|i: int| 0 <= i < statuses.len() && statuses[i] == status,
        status_selected_spec(status, hidden, all, statuses.push(status)),
{
    assert(statuses.push(status)[statuses.len() as int] == status);
}


/// With no statuses asked for, an entity is listed exactly when `--all` is
/// given or its kind does not hide its status.
pub proof fn lemma_default_selection_hides_only_the_hide_set(status: Seq<char>, hidden: bool, all: bool)
    ensures
        status_selected_spec(status, hidden, all, Seq::empty()) <==> (all || !hidden),
{
}

} // verus!
