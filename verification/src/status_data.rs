//! The tallies the dashboard shows, computed from what was read: the slice
//! counts, the open backlog items by kind, and the RFC summary with the most
//! recent open RFCs first.

use vstd::prelude::*;
use crate::listing::{Meta, canonical_id, canonical_id_spec};
use crate::sorted::{SortedMap, lookup, lemma_insert_then_lookup};
use crate::status::{SliceCounts, RfcSummary, RfcTitle, BlockedItem};
use crate::text::{str_eq, str_lt, views, lex_lt, lemma_lex_trichotomy, lemma_lex_transitive};

verus! {

/// A slice that still governs: neither `done` nor `abandoned`.
pub open spec fn slice_active(status: Seq<char>) -> bool {
    status != "done"@ && status != "abandoned"@
}

/// How many of `statuses` are active.
pub open spec fn active_count(statuses: Seq<Seq<char>>) -> nat
    decreases statuses.len(),
{
    if statuses.len() == 0 {
        0
    } else {
        active_count(statuses.drop_last()) + if slice_active(statuses.last()) { 1nat } else { 0nat }
    }
}

/// The slice counts from every slice's status and the number found blocked.
pub fn slice_counts(statuses: &Vec<String>, blocked: usize) -> (c: SliceCounts)
    ensures
        c.active == active_count(views(statuses@)),
        c.blocked == blocked,
        c.total == statuses@.len(),
{
    let ghost vs = views(statuses@);
    let mut active: usize = 0;
    let mut i: usize = 0;
    while i < statuses.len()
        invariant
            i <= statuses@.len(),
            vs == views(statuses@),
            active == active_count(vs.take(i as int)),
            active <= i,
        decreases statuses.len() - i,
    {
        let s = statuses[i].as_str();
        let counts = !(str_eq(s, "done") || str_eq(s, "abandoned"));
        proof {
            reveal_strlit("done");
            reveal_strlit("abandoned");
            assert(vs.take(i + 1).drop_last() =~= vs.take(i as int));
            assert(vs.take(i + 1).last() == statuses@[i as int]@);
        }
        if counts {
            active = active + 1;
        }
        i = i + 1;
    }
    proof {
        assert(vs.take(statuses@.len() as int) =~= vs);
    }
    SliceCounts { active, blocked, total: statuses.len() }
}

/// How many times `k` occurs in `s`.
pub open spec fn occurrences(s: Seq<Seq<char>>, k: Seq<char>) -> nat
    decreases s.len(),
{
    if s.len() == 0 {
        0
    } else {
        occurrences(s.drop_last(), k) + if s.last() == k { 1nat } else { 0nat }
    }
}

/// A prefix occurs no more often than its length.
proof fn lemma_occurrences_bound(s: Seq<Seq<char>>, k: Seq<char>)
    ensures
        occurrences(s, k) <= s.len(),
    decreases s.len(),
{
    if s.len() > 0 {
        lemma_occurrences_bound(s.drop_last(), k);
    }
}

/// Tally `kinds` (one entry per open backlog item): each kind that occurs
/// maps to how many times it does, and no other kind appears; the kinds
/// ascend.
pub fn count_by_kind(kinds: &Vec<String>) -> (m: SortedMap<usize>)
    ensures
        m.wf(),
        forall|k: Seq<char>| #[trigger] lookup(m.view(), k) == if occurrences(views(kinds@), k) > 0 {
            Some(occurrences(views(kinds@), k) as usize)
        } else {
            None
        },
{
    let ghost vs = views(kinds@);
    let mut m: SortedMap<usize> = SortedMap::new();
    let mut i: usize = 0;
    while i < kinds.len()
        invariant
            i <= kinds@.len(),
            vs == views(kinds@),
            m.wf(),
            forall|k: Seq<char>| #[trigger] lookup(m.view(), k) == if occurrences(vs.take(i as int), k) > 0 {
                Some(occurrences(vs.take(i as int), k) as usize)
            } else {
                None
            },
        decreases kinds.len() - i,
    {
        let x = &kinds[i];
        let ghost before = m.view();
        let ghost t = vs.take(i as int);
        let ghost t1 = vs.take(i + 1);
        proof {
            assert(t1.drop_last() =~= t);
            assert(t1.last() == x@);
            lemma_occurrences_bound(t, x@);
        }
        let n: usize = match m.get(x.as_str()) {
            Some(c) => *c + 1,
            None => 1,
        };
        m.insert(x.clone(), n);
        proof {
            assert forall|k: Seq<char>| #[trigger] lookup(m.view(), k) == if occurrences(t1, k) > 0 {
                Some(occurrences(t1, k) as usize)
            } else {
                None
            } by {
                lemma_insert_then_lookup(before, x@, n, k);
            }
        }
        i = i + 1;
    }
    proof {
        assert(vs.take(kinds@.len() as int) =~= vs);
    }
    m
}

/// The ids of the open RFCs, in the order read.
pub open spec fn open_ids(metas: Seq<Meta>) -> Seq<u32>
    decreases metas.len(),
{
    if metas.len() == 0 {
        Seq::empty()
    } else if metas.last().status@ == "open"@ {
        open_ids(metas.drop_last()).push(metas.last().id)
    } else {
        open_ids(metas.drop_last())
    }
}

/// Ids from the most recent down.
pub open spec fn descending(s: Seq<u32>) -> bool {
    forall|i: int, j: int| 0 <= i < j < s.len() ==> s[i] >= s[j]
}

/// The first RFC with id `id`.
pub open spec fn first_with_id(metas: Seq<Meta>, id: u32) -> int
    decreases metas.len(),
{
    if metas.len() == 0 {
        0
    } else if exists|k: int| 0 <= k < metas.len() - 1 && (#[trigger] metas[k]).id == id {
        first_with_id(metas.drop_last(), id)
    } else {
        metas.len() - 1
    }
}

/// How many open RFC titles the dashboard lists at most.
pub const RFC_TITLES_SHOWN: usize = 10;

/// The listed title of RFC `id`: its canonical id and the title of the first
/// RFC with that id.
pub open spec fn rfc_title_spec(metas: Seq<Meta>, id: u32) -> (Seq<char>, Seq<char>) {
    (canonical_id_spec("RFC"@, id as nat), metas[first_with_id(metas, id)].title@)
}

/// The titles as text.
pub open spec fn titles_text(t: Seq<RfcTitle>) -> Seq<(Seq<char>, Seq<char>)> {
    t.map_values(|x: RfcTitle| (x.id@, x.title@))
}

/// Sort ids from the most recent down, keeping every id.
fn sort_desc(v: &Vec<u32>) -> (r: Vec<u32>)
    ensures
        descending(r@),
        r@.to_multiset() == v@.to_multiset(),
        r@.len() == v@.len(),
{
    broadcast use vstd::seq_lib::group_to_multiset_ensures;
    let mut r: Vec<u32> = Vec::new();
    let mut i: usize = 0;
    while i < v.len()
        invariant
            i <= v@.len(),
            descending(r@),
            r@.to_multiset() == v@.take(i as int).to_multiset(),
            r@.len() == i,
        decreases v.len() - i,
    {
        let x = v[i];
        let mut k: usize = 0;
        while k < r.len() && r[k] >= x
            invariant
                k <= r@.len(),
                forall|j: int| 0 <= j < k ==> r@[j] >= x,
            decreases r.len() - k,
        {
            k = k + 1;
        }
        let ghost before = r@;
        r.insert(k, x);
        proof {
            assert(r@ == before.insert(k as int, x));
            vstd::seq_lib::to_multiset_insert(before, k as int, x);
            assert(v@.take(i + 1) =~= v@.take(i as int).push(x));
            vstd::seq_lib::to_multiset_build(v@.take(i as int), x);
            assert forall|a: int, b: int| 0 <= a < b < r@.len() implies r@[a] >= r@[b] by {
                if b < k {
                } else if b == k {
                    assert(r@[a] == before[a]);
                } else if a < k {
                    assert(r@[a] == before[a] && r@[b] == before[b - 1]);
                    if b - 1 >= k {
                        assert(before[k as int] < x || k >= before.len());
                        if k < before.len() {
                            assert(before[a] >= before[b - 1]);
                        }
                    }
                } else if a == k {
                    assert(r@[b] == before[b - 1]);
                    assert(before[k as int] < x);
                    assert(before[k as int] >= before[b - 1]);
                } else {
                    assert(r@[a] == before[a - 1] && r@[b] == before[b - 1]);
                }
            }
        }
        i = i + 1;
    }
    proof {
        assert(v@.take(v@.len() as int) =~= v@);
    }
    r
}

/// Two descending listings of the same ids are the same listing, so the RFC
/// summary is determined by the RFCs read.
pub proof fn lemma_descending_unique(a: Seq<u32>, b: Seq<u32>)
    requires
        descending(a),
        descending(b),
        a.to_multiset() == b.to_multiset(),
    ensures
        a == b,
    decreases a.len(),
{
    broadcast use vstd::seq_lib::group_to_multiset_ensures;
    if a.len() == 0 {
        if b.len() > 0 {
            assert(b.to_multiset().count(b[0]) > 0);
        }
        assert(a =~= b);
    } else {
        assert(a.to_multiset().count(a[0]) > 0);
        assert(b.contains(a[0]));
        let j = choose|j: int| 0 <= j < b.len() && b[j] == a[0];
        assert(b.to_multiset().count(b[0]) > 0);
        assert(a.contains(b[0]));
        let i = choose|i: int| 0 <= i < a.len() && a[i] == b[0];
        if i > 0 {
            assert(a[0] >= a[i]);
        }
        if j > 0 {
            assert(b[0] >= b[j]);
        }
        assert(a[0] == b[0]);
        vstd::seq_lib::to_multiset_remove(a, 0);
        vstd::seq_lib::to_multiset_remove(b, 0);
        assert(a.remove(0) =~= a.drop_first());
        assert(b.remove(0) =~= b.drop_first());
        let a1 = a.drop_first();
        let b1 = b.drop_first();
        assert forall|x: int, y: int| 0 <= x < y < a1.len() implies a1[x] >= a1[y] by {
            assert(a1[x] == a[x + 1] && a1[y] == a[y + 1]);
        }
        assert forall|x: int, y: int| 0 <= x < y < b1.len() implies b1[x] >= b1[y] by {
            assert(b1[x] == b[x + 1] && b1[y] == b[y + 1]);
        }
        lemma_descending_unique(a1, b1);
        assert(a =~= seq![a[0]] + a1);
        assert(b =~= seq![b[0]] + b1);
    }
}

/// The index of the first RFC with id `id`, one being known to exist.
fn find_id(metas: &Vec<Meta>, id: u32) -> (k: usize)
    requires
        exists|k: int| 0 <= k < metas@.len() && (#[trigger] metas@[k]).id == id,
    ensures
        k == first_with_id(metas@, id),
        k < metas@.len(),
{
    let mut k: usize = 0;
    while k < metas.len()
        invariant
            k <= metas@.len(),
            forall|j: int| 0 <= j < k ==> (#[trigger] metas@[j]).id != id,
            exists|k: int| 0 <= k < metas@.len() && (#[trigger] metas@[k]).id == id,
        decreases metas.len() - k,
    {
        if metas[k].id == id {
            proof {
                lemma_first_with_id(metas@, id, k as int);
            }
            return k;
        }
        k = k + 1;
    }
    proof {
        let w = choose|w: int| 0 <= w < metas@.len() && (#[trigger] metas@[w]).id == id;
        assert(metas@[w].id != id);
    }
    0
}

/// `first_with_id` finds the first index holding the id.
proof fn lemma_first_with_id(metas: Seq<Meta>, id: u32, k: int)
    requires
        0 <= k < metas.len(),
        metas[k].id == id,
        forall|j: int| 0 <= j < k ==> (#[trigger] metas[j]).id != id,
    ensures
        first_with_id(metas, id) == k,
    decreases metas.len(),
{
    if k < metas.len() - 1 {
        let d = metas.drop_last();
        assert(d[k] == metas[k]);
        assert forall|j: int| 0 <= j < k implies (#[trigger] d[j]).id != id by {
            assert(d[j] == metas[j]);
        }
        lemma_first_with_id(d, id, k);
    } else {
        if exists|j: int| 0 <= j < metas.len() - 1 && (#[trigger] metas[j]).id == id {
            let j = choose|j: int| 0 <= j < metas.len() - 1 && (#[trigger] metas[j]).id == id;
            assert(metas[j].id != id);
        }
    }
}

/// Every open id is the id of some RFC.
proof fn lemma_open_ids_present(metas: Seq<Meta>, x: u32)
    requires
        open_ids(metas).contains(x),
    ensures
        exists|k: int| 0 <= k < metas.len() && (#[trigger] metas[k]).id == x,
    decreases metas.len(),
{
    let d = metas.drop_last();
    if metas.last().status@ == "open"@ && x == metas.last().id {
        assert(metas[metas.len() - 1].id == x);
    } else {
        if metas.last().status@ == "open"@ {
            let j = choose|j: int| 0 <= j < open_ids(metas).len() && open_ids(metas)[j] == x;
            assert(open_ids(metas) == open_ids(d).push(metas.last().id));
            assert(open_ids(d)[j] == x);
        }
        lemma_open_ids_present(d, x);
        let k = choose|k: int| 0 <= k < d.len() && (#[trigger] d[k]).id == x;
        assert(metas[k] == d[k]);
    }
}

/// The RFC summary: how many are open, how many in all, and the open ones,
/// most recent (highest id) first, at most [`RFC_TITLES_SHOWN`] of them, each
/// by canonical id and title.
pub fn rfc_summary(metas: &Vec<Meta>) -> (r: RfcSummary)
    ensures
        r.open == open_ids(metas@).len(),
        r.total == metas@.len(),
        exists|sorted: Seq<u32>| #[trigger] descending(sorted)
            && sorted.to_multiset() == open_ids(metas@).to_multiset()
            && titles_text(r.open_titles@) == sorted.take(
                if sorted.len() < RFC_TITLES_SHOWN { sorted.len() as int } else { RFC_TITLES_SHOWN as int },
            ).map_values(|id: u32| rfc_title_spec(metas@, id)),
{
    let mut ids: Vec<u32> = Vec::new();
    let mut i: usize = 0;
    while i < metas.len()
        invariant
            i <= metas@.len(),
            ids@ == open_ids(metas@.take(i as int)),
        decreases metas.len() - i,
    {
        proof {
            reveal_strlit("open");
            assert(metas@.take(i + 1).drop_last() =~= metas@.take(i as int));
        }
        if str_eq(metas[i].status.as_str(), "open") {
            ids.push(metas[i].id);
        }
        i = i + 1;
    }
    proof {
        assert(metas@.take(metas@.len() as int) =~= metas@);
    }
    let sorted = sort_desc(&ids);
    let shown: usize = if sorted.len() < RFC_TITLES_SHOWN { sorted.len() } else { RFC_TITLES_SHOWN };
    let ghost want = sorted@.take(shown as int).map_values(|id: u32| rfc_title_spec(metas@, id));
    let mut titles: Vec<RfcTitle> = Vec::new();
    let mut j: usize = 0;
    while j < shown
        invariant
            j <= shown,
            shown <= sorted@.len(),
            sorted@.to_multiset() == open_ids(metas@).to_multiset(),
            ids@ == open_ids(metas@),
            want == sorted@.take(shown as int).map_values(|id: u32| rfc_title_spec(metas@, id)),
            titles_text(titles@) == want.take(j as int),
        decreases shown - j,
    {
        let id = sorted[j];
        proof {
            broadcast use vstd::seq_lib::group_to_multiset_ensures;
            assert(sorted@.contains(id)) by {
                assert(sorted@[j as int] == id);
            }
            assert(sorted@.to_multiset().count(id) > 0);
            assert(open_ids(metas@).to_multiset().count(id) > 0);
            assert(open_ids(metas@).contains(id));
            lemma_open_ids_present(metas@, id);
        }
        let k = find_id(metas, id);
        let entry = RfcTitle { id: canonical_id("RFC", id), title: metas[k].title.clone() };
        let ghost before = titles_text(titles@);
        titles.push(entry);
        j = j + 1;
        proof {
            assert(titles_text(titles@) =~= before.push(rfc_title_spec(metas@, id)));
            assert(want[j - 1] == rfc_title_spec(metas@, id));
            assert(titles_text(titles@) =~= want.take(j as int));
        }
    }
    proof {
        assert(want.take(shown as int) =~= want);
    }
    RfcSummary { open: ids.len(), total: metas.len(), open_titles: titles }
}

/// How many blocked items of each kind the dashboard lists at most.
pub const BLOCKED_SHOWN: usize = 5;

/// Items in ascending id order (equal ids in any order).
pub open spec fn ids_ascending(s: Seq<BlockedItem>) -> bool {
    forall|i: int, j: int| 0 <= i < j < s.len() ==> !lex_lt(#[trigger] s[j].id@, #[trigger] s[i].id@)
}

/// The blocked list shown: the items sorted by id, the first
/// [`BLOCKED_SHOWN`] of them, and how many there were in all.
pub fn blocked_section(items: Vec<BlockedItem>) -> (r: (Vec<BlockedItem>, usize))
    ensures
        r.1 == items@.len(),
        exists|sorted: Seq<BlockedItem>| #[trigger] ids_ascending(sorted)
            && sorted.to_multiset() == items@.to_multiset()
            && r.0@ == sorted.take(if sorted.len() < BLOCKED_SHOWN { sorted.len() as int } else { BLOCKED_SHOWN as int }),
{
    broadcast use vstd::seq_lib::group_to_multiset_ensures;
    let n = items.len();
    let ghost all = items@;
    let mut sorted: Vec<BlockedItem> = Vec::new();
    let mut rest = items;
    let mut i: usize = 0;
    proof {
        assert(all.take(0) =~= Seq::<BlockedItem>::empty());
        assert(all.skip(0) =~= all);
    }
    while i < n
        invariant
            i <= n,
            n == all.len(),
            rest@ == all.skip(i as int),
            ids_ascending(sorted@),
            sorted@.to_multiset() == all.take(i as int).to_multiset(),
            sorted@.len() == i,
        decreases n - i,
    {
        proof {
            assert(rest@[0] == all[i as int]);
        }
        let x = rest.remove(0);
        proof {
            assert(rest@ =~= all.skip(i + 1));
        }
        let mut k: usize = 0;
        while k < sorted.len() && !str_lt(x.id.as_str(), sorted[k].id.as_str())
            invariant
                k <= sorted@.len(),
                forall|j: int| 0 <= j < k ==> !lex_lt(x.id@, #[trigger] sorted@[j].id@),
            decreases sorted.len() - k,
        {
            k = k + 1;
        }
        let ghost before = sorted@;
        let ghost xv = x;
        sorted.insert(k, x);
        proof {
            vstd::seq_lib::to_multiset_insert(before, k as int, xv);
            assert(all.take(i + 1) =~= all.take(i as int).push(xv));
            vstd::seq_lib::to_multiset_build(all.take(i as int), xv);
            assert forall|a: int, b: int| 0 <= a < b < sorted@.len() implies
                !lex_lt(#[trigger] sorted@[b].id@, #[trigger] sorted@[a].id@) by {
                if b < k {
                    assert(sorted@[a] == before[a] && sorted@[b] == before[b]);
                } else if b == k {
                    assert(sorted@[a] == before[a]);
                } else if a < k {
                    assert(sorted@[a] == before[a] && sorted@[b] == before[b - 1]);
                } else if a == k {
                    assert(sorted@[b] == before[b - 1]);
                    assert(lex_lt(xv.id@, before[k as int].id@));
                    if lex_lt(before[b - 1].id@, xv.id@) {
                        lemma_lex_transitive(before[b - 1].id@, xv.id@, before[k as int].id@);
                        lemma_lex_trichotomy(before[b - 1].id@, before[k as int].id@);
                    }
                } else {
                    assert(sorted@[a] == before[a - 1] && sorted@[b] == before[b - 1]);
                }
            }
        }
        i = i + 1;
    }
    proof {
        assert(all.take(n as int) =~= all);
    }
    let ghost full = sorted@;
    let shown: usize = if n < BLOCKED_SHOWN { n } else { BLOCKED_SHOWN };
    sorted.truncate(shown);
    proof {
        assert(sorted@ =~= full.take(shown as int));
    }
    (sorted, n)
}


/// The dashboard counts as active every slice whose status is neither `done`
/// nor `abandoned`: each other status, `reconcile` and unknown ones
/// included, adds one.
pub proof fn lemma_active_counts_every_unfinished_status(statuses: Seq<Seq<char>>)
    ensures
        active_count(statuses) == statuses.filter(|x: Seq<char>| x != "done"@ && x != "abandoned"@).len(),
    decreases statuses.len(),
{
    reveal(Seq::filter);
    if statuses.len() > 0 {
        lemma_active_counts_every_unfinished_status(statuses.drop_last());
    }
}

} // verus!
