//! String-keyed maps and sets kept in ascending key order — the iteration
//! order of a `BTreeMap<String, V>` and a `BTreeSet<String>`.

use vstd::prelude::*;
use crate::text::{lex_lt, str_lt, str_eq, lemma_lex_trichotomy, lemma_lex_transitive};

verus! {

/// The keys of entries, in order.
pub open spec fn keys_of<V>(s: Seq<(Seq<char>, V)>) -> Seq<Seq<char>> {
    s.map_values(|e: (Seq<char>, V)| e.0)
}

/// Entries whose keys strictly ascend.
pub open spec fn ascending<V>(s: Seq<(Seq<char>, V)>) -> bool {
    forall|i: int, j: int| 0 <= i < j < s.len() ==> lex_lt(#[trigger] s[i].0, #[trigger] s[j].0)
}

/// How many keys of `s` sort before `k`.
pub open spec fn rank_of<V>(s: Seq<(Seq<char>, V)>, k: Seq<char>) -> nat
    decreases s.len(),
{
    if s.len() == 0 {
        0
    } else {
        rank_of(s.drop_last(), k) + if lex_lt(s.last().0, k) { 1nat } else { 0nat }
    }
}

/// Whether some entry has key `k`.
pub open spec fn contains_key<V>(s: Seq<(Seq<char>, V)>, k: Seq<char>) -> bool {
    exists|i: int| 0 <= i < s.len() && #[trigger] s[i].0 == k
}

/// The value under key `k`: that of the first entry with that key.
pub open spec fn lookup<V>(s: Seq<(Seq<char>, V)>, k: Seq<char>) -> Option<V>
    decreases s.len(),
{
    if s.len() == 0 {
        None
    } else if s[0].0 == k {
        Some(s[0].1)
    } else {
        lookup(s.skip(1), k)
    }
}

/// The entries after storing `v` under `k`: the entry for `k` replaced when
/// present, otherwise a new entry placed at `k`'s rank.
pub open spec fn insert_spec<V>(s: Seq<(Seq<char>, V)>, k: Seq<char>, v: V) -> Seq<(Seq<char>, V)> {
    if contains_key(s, k) {
        s.update(rank_of(s, k) as int, (k, v))
    } else {
        s.insert(rank_of(s, k) as int, (k, v))
    }
}

/// `lookup` finds the first entry with the key, and nothing when none has it.
pub proof fn lemma_lookup<V>(s: Seq<(Seq<char>, V)>, k: Seq<char>)
    ensures
        match lookup(s, k) {
            Some(v) => exists|i: int| 0 <= i < s.len() && #[trigger] s[i].0 == k && s[i].1 == v
                && forall|j: int| 0 <= j < i ==> s[j].0 != k,
            None => forall|i: int| 0 <= i < s.len() ==> #[trigger] s[i].0 != k,
        },
    decreases s.len(),
{
    if s.len() > 0 {
        if s[0].0 == k {
            assert(s[0].0 == k);
        } else {
            let t = s.skip(1);
            lemma_lookup(t, k);
            match lookup(t, k) {
                Some(v) => {
                    let i = choose|i: int| 0 <= i < t.len() && #[trigger] t[i].0 == k && t[i].1 == v
                        && forall|j: int| 0 <= j < i ==> t[j].0 != k;
                    assert(s[i + 1] == t[i]);
                    assert forall|j: int| 0 <= j < i + 1 implies s[j].0 != k by {
                        if j > 0 {
                            assert(s[j] == t[j - 1]);
                        }
                    }
                },
                None => {
                    assert forall|i: int| 0 <= i < s.len() implies #[trigger] s[i].0 != k by {
                        if i > 0 {
                            assert(s[i] == t[i - 1]);
                        }
                    }
                },
            }
        }
    }
}

/// In ascending entries each key finds its own entry.
pub proof fn lemma_lookup_unique<V>(s: Seq<(Seq<char>, V)>, j: int)
    requires
        ascending(s),
        0 <= j < s.len(),
    ensures
        lookup(s, s[j].0) == Some(s[j].1),
{
    let k = s[j].0;
    lemma_lookup(s, k);
    match lookup(s, k) {
        Some(v) => {
            let i = choose|i: int| 0 <= i < s.len() && #[trigger] s[i].0 == k && s[i].1 == v
                && forall|j2: int| 0 <= j2 < i ==> s[j2].0 != k;
            if i < j {
                assert(lex_lt(s[i].0, s[j].0));
                lemma_lex_trichotomy(k, k);
            }
        },
        None => {
            assert(s[j].0 == k);
        },
    }
}

/// In ascending entries, the keys below `k` are exactly those before its rank.
pub proof fn lemma_rank_ascending<V>(s: Seq<(Seq<char>, V)>, k: Seq<char>)
    requires
        ascending(s),
    ensures
        rank_of(s, k) <= s.len(),
        forall|j: int| 0 <= j < rank_of(s, k) ==> lex_lt(#[trigger] s[j].0, k),
        forall|j: int| rank_of(s, k) <= j < s.len() ==> !lex_lt(#[trigger] s[j].0, k),
    decreases s.len(),
{
    if s.len() > 0 {
        let d = s.drop_last();
        assert(ascending(d)) by {
            assert forall|i: int, j: int| 0 <= i < j < d.len() implies lex_lt(#[trigger] d[i].0, #[trigger] d[j].0) by {
                assert(d[i] == s[i] && d[j] == s[j]);
            }
        }
        lemma_rank_ascending(d, k);
        let last = s.len() - 1;
        if lex_lt(s[last].0, k) {
            assert forall|j: int| 0 <= j < s.len() implies lex_lt(#[trigger] s[j].0, k) by {
                if j < last {
                    assert(lex_lt(s[j].0, s[last].0));
                    lemma_lex_transitive(s[j].0, s[last].0, k);
                }
            }
        } else {
            assert forall|j: int| rank_of(s, k) <= j < s.len() implies !lex_lt(#[trigger] s[j].0, k) by {
                if j < last {
                    assert(d[j] == s[j]);
                }
            }
            assert forall|j: int| 0 <= j < rank_of(s, k) implies lex_lt(#[trigger] s[j].0, k) by {
                assert(d[j] == s[j]);
            }
        }
    }
}

/// When the key is present in ascending entries, it sits at its rank.
proof fn lemma_present_at_rank<V>(s: Seq<(Seq<char>, V)>, k: Seq<char>)
    requires
        ascending(s),
        contains_key(s, k),
    ensures
        rank_of(s, k) < s.len(),
        s[rank_of(s, k) as int].0 == k,
{
    lemma_rank_ascending(s, k);
    let i = choose|i: int| 0 <= i < s.len() && #[trigger] s[i].0 == k;
    let r = rank_of(s, k) as int;
    lemma_lex_trichotomy(k, k);
    if i < r {
        assert(lex_lt(s[i].0, k));
    } else if i > r {
        assert(lex_lt(s[r].0, s[i].0));
        assert(!lex_lt(s[r].0, k));
    }
}

/// Storing keeps the keys ascending.
pub proof fn lemma_insert_spec_ascending<V>(s: Seq<(Seq<char>, V)>, k: Seq<char>, v: V)
    requires
        ascending(s),
    ensures
        ascending(insert_spec(s, k, v)),
{
    lemma_rank_ascending(s, k);
    let p = rank_of(s, k) as int;
    let t = insert_spec(s, k, v);
    if contains_key(s, k) {
        lemma_present_at_rank(s, k);
        assert forall|i: int, j: int| 0 <= i < j < t.len() implies lex_lt(#[trigger] t[i].0, #[trigger] t[j].0) by {
            assert(t[i].0 == s[i].0 && t[j].0 == s[j].0);
        }
    } else {
        assert forall|i: int, j: int| 0 <= i < j < t.len() implies lex_lt(#[trigger] t[i].0, #[trigger] t[j].0) by {
            if j == p {
                assert(t[i] == s[i]);
            } else if i == p {
                assert(t[j] == s[j - 1]);
                lemma_lex_trichotomy(s[j - 1].0, k);
                assert(s[j - 1].0 != k);
            } else if i < p && j > p {
                assert(t[i] == s[i]);
                assert(t[j] == s[j - 1]);
            } else if i > p {
                assert(t[i] == s[i - 1]);
                assert(t[j] == s[j - 1]);
            } else {
                assert(t[i] == s[i]);
                assert(t[j] == s[j]);
            }
        }
    }
}

/// What a read gives back after a write: the key just stored finds the value
/// just stored, and every other key finds what it found before.
pub proof fn lemma_insert_then_lookup<V>(s: Seq<(Seq<char>, V)>, k: Seq<char>, v: V, k2: Seq<char>)
    requires
        ascending(s),
    ensures
        lookup(insert_spec(s, k, v), k2) == (if k2 == k { Some(v) } else { lookup(s, k2) }),
{
    let t = insert_spec(s, k, v);
    let p = rank_of(s, k) as int;
    lemma_rank_ascending(s, k);
    lemma_insert_spec_ascending(s, k, v);
    lemma_lookup(s, k2);
    lemma_lookup(t, k2);
    if contains_key(s, k) {
        lemma_present_at_rank(s, k);
    }
    if k2 == k {
        assert(t[p] == (k, v));
        lemma_lookup_unique(t, p);
    } else {
        // every entry of `t` with key `k2` is an entry of `s`, and back.
        match lookup(s, k2) {
            Some(w) => {
                let i = choose|i: int| 0 <= i < s.len() && #[trigger] s[i].0 == k2 && s[i].1 == w
                    && forall|j: int| 0 <= j < i ==> s[j].0 != k2;
                let ti = if contains_key(s, k) || i < p { i } else { i + 1 };
                assert(t[ti] == s[i]);
                lemma_lookup_unique(t, ti);
                assert(ascending(s));
                lemma_lookup_unique(s, i);
            },
            None => {
                assert forall|i: int| 0 <= i < t.len() implies #[trigger] t[i].0 != k2 by {
                    if contains_key(s, k) {
                        if i != p {
                            assert(t[i] == s[i]);
                        }
                    } else if i < p {
                        assert(t[i] == s[i]);
                    } else if i > p {
                        assert(t[i] == s[i - 1]);
                    }
                }
            },
        }
    }
}

/// A key has an entry exactly when looking it up finds a value.
pub proof fn lemma_keys_contains_iff_lookup<V>(s: Seq<(Seq<char>, V)>, x: Seq<char>)
    ensures
        keys_of(s).contains(x) <==> lookup(s, x) is Some,
{
    lemma_lookup(s, x);
    if keys_of(s).contains(x) {
        let i = choose|i: int| 0 <= i < keys_of(s).len() && keys_of(s)[i] == x;
        assert(s[i].0 == x);
    }
    if lookup(s, x) is Some {
        let i = choose|i: int| 0 <= i < s.len() && #[trigger] s[i].0 == x && s[i].1 == lookup(s, x).unwrap()
            && forall|j: int| 0 <= j < i ==> s[j].0 != x;
        assert(keys_of(s)[i] == x);
    }
}

/// Storing under `k` adds `k` to the keys and removes none.
pub proof fn lemma_insert_spec_keys<V>(s: Seq<(Seq<char>, V)>, k: Seq<char>, v: V, x: Seq<char>)
    requires
        ascending(s),
    ensures
        keys_of(insert_spec(s, k, v)).contains(x) <==> (keys_of(s).contains(x) || x == k),
{
    lemma_insert_then_lookup(s, k, v, x);
    lemma_keys_contains_iff_lookup(s, x);
    lemma_keys_contains_iff_lookup(insert_spec(s, k, v), x);
}

/// A map from strings to values whose entries are kept in ascending key order.
#[derive(Debug, Clone)]
pub struct SortedMap<V> {
    entries: Vec<(String, V)>,
}

impl<V> SortedMap<V> {
    /// The entries, keys by their characters, in ascending key order.
    pub closed spec fn view(&self) -> Seq<(Seq<char>, V)> {
        self.entries@.map_values(|e: (String, V)| (e.0@, e.1))
    }

    /// The map keeps its keys strictly ascending.
    pub open spec fn wf(&self) -> bool {
        ascending(self.view())
    }

    /// An empty map.
    pub fn new() -> (m: SortedMap<V>)
        ensures
            m.wf(),
            m.view() == Seq::<(Seq<char>, V)>::empty(),
    {
        let m = SortedMap { entries: Vec::new() };
        assert(m.view() =~= Seq::<(Seq<char>, V)>::empty());
        m
    }

    /// The number of entries.
    pub fn len(&self) -> (n: usize)
        ensures
            n == self.view().len(),
    {
        self.entries.len()
    }

    /// The key of entry `i`.
    pub fn key_at(&self, i: usize) -> (k: &String)
        requires
            i < self.view().len(),
        ensures
            k@ == self.view()[i as int].0,
    {
        &self.entries[i].0
    }

    /// The value of entry `i`.
    pub fn value_at(&self, i: usize) -> (v: &V)
        requires
            i < self.view().len(),
        ensures
            *v == self.view()[i as int].1,
    {
        &self.entries[i].1
    }

    /// The value stored under `key`, if any.
    pub fn get(&self, key: &str) -> (r: Option<&V>)
        ensures
            match r {
                Some(v) => lookup(self.view(), key@) == Some(*v),
                None => lookup(self.view(), key@) == None::<V>,
            },
    {
        proof {
            lemma_lookup(self.view(), key@);
        }
        let mut i: usize = 0;
        while i < self.entries.len()
            invariant
                i <= self.entries@.len(),
                forall|j: int| 0 <= j < i ==> self.view()[j].0 != key@,
                match lookup(self.view(), key@) {
                    Some(v) => exists|i: int| 0 <= i < self.view().len() && #[trigger] self.view()[i].0 == key@
                        && self.view()[i].1 == v && forall|j: int| 0 <= j < i ==> self.view()[j].0 != key@,
                    None => forall|i: int| 0 <= i < self.view().len() ==> #[trigger] self.view()[i].0 != key@,
                },
            decreases self.entries.len() - i,
        {
            if str_eq(self.entries[i].0.as_str(), key) {
                assert(self.view()[i as int].0 == key@);
                return Some(&self.entries[i].1);
            }
            i = i + 1;
        }
        None
    }

    /// Store `value` under `key`: the entry for `key` is replaced when present,
    /// otherwise a new entry is placed among the others by key order.
    pub fn insert(&mut self, key: String, value: V)
        requires
            old(self).wf(),
        ensures
            final(self).wf(),
            final(self).view() == insert_spec(old(self).view(), key@, value),
    {
        let ghost s = self.view();
        proof {
            lemma_rank_ascending(s, key@);
            lemma_insert_spec_ascending(s, key@, value);
        }
        let mut p: usize = 0;
        while p < self.entries.len() && str_lt(self.entries[p].0.as_str(), key.as_str())
            invariant
                p <= self.entries@.len(),
                s == self.view(),
                forall|j: int| 0 <= j < p ==> lex_lt(#[trigger] s[j].0, key@),
            decreases self.entries.len() - p,
        {
            p = p + 1;
        }
        proof {
            let r = rank_of(s, key@) as int;
            if p < r {
                assert(lex_lt(s[p as int].0, key@));
            } else if p > r {
                assert(lex_lt(s[r].0, key@));
            }
            assert(p == r);
        }
        if p < self.entries.len() && str_eq(self.entries[p].0.as_str(), key.as_str()) {
            self.entries.set(p, (key, value));
            proof {
                assert(contains_key(s, key@));
                assert(self.view() =~= s.update(p as int, (key@, value)));
            }
        } else {
            self.entries.insert(p, (key, value));
            proof {
                lemma_lex_trichotomy(key@, key@);
                assert forall|j: int| 0 <= j < s.len() implies #[trigger] s[j].0 != key@ by {
                    if j > p {
                        lemma_lex_trichotomy(s[p as int].0, key@);
                        assert(lex_lt(s[p as int].0, s[j].0));
                        lemma_lex_transitive(key@, s[p as int].0, s[j].0);
                        lemma_lex_trichotomy(key@, s[j].0);
                    } else if j == p {
                    } else {
                        assert(lex_lt(s[j].0, key@));
                    }
                }
                assert(!contains_key(s, key@));
                assert(self.view() =~= s.insert(p as int, (key@, value)));
            }
        }
    }
}

/// Strings that strictly ascend.
pub open spec fn strictly_ascending(s: Seq<Seq<char>>) -> bool {
    forall|i: int, j: int| 0 <= i < j < s.len() ==> lex_lt(#[trigger] s[i], #[trigger] s[j])
}

/// Two strictly ascending sequences with the same members are the same
/// sequence: a set has one ascending listing.
pub proof fn lemma_ascending_unique(s: Seq<Seq<char>>, t: Seq<Seq<char>>)
    requires
        strictly_ascending(s),
        strictly_ascending(t),
        s.to_set() == t.to_set(),
    ensures
        s == t,
    decreases s.len(),
{
    if s.len() == 0 {
        if t.len() > 0 {
            assert(t.to_set().contains(t[0]));
            assert(!s.to_set().contains(t[0]));
        }
        assert(s =~= t);
    } else {
        assert(s.to_set().contains(s[0]));
        assert(t.to_set().contains(s[0]));
        let j = choose|j: int| 0 <= j < t.len() && t[j] == s[0];
        assert(t.to_set().contains(t[0]));
        assert(s.to_set().contains(t[0]));
        let i = choose|i: int| 0 <= i < s.len() && s[i] == t[0];
        lemma_lex_trichotomy(s[0], s[0]);
        if j > 0 {
            assert(lex_lt(t[0], t[j]));
            if i > 0 {
                assert(lex_lt(s[0], s[i]));
                lemma_lex_transitive(s[0], s[i], s[0]);
            }
        }
        assert(t[0] == s[0]);
        let s1 = s.drop_first();
        let t1 = t.drop_first();
        assert(strictly_ascending(s1)) by {
            assert forall|a: int, b: int| 0 <= a < b < s1.len() implies lex_lt(#[trigger] s1[a], #[trigger] s1[b]) by {
                assert(s1[a] == s[a + 1] && s1[b] == s[b + 1]);
            }
        }
        assert(strictly_ascending(t1)) by {
            assert forall|a: int, b: int| 0 <= a < b < t1.len() implies lex_lt(#[trigger] t1[a], #[trigger] t1[b]) by {
                assert(t1[a] == t[a + 1] && t1[b] == t[b + 1]);
            }
        }
        assert(s1.to_set() =~= t1.to_set()) by {
            assert forall|x: Seq<char>| s1.to_set().contains(x) implies t1.to_set().contains(x) by {
                let a = choose|a: int| 0 <= a < s1.len() && s1[a] == x;
                assert(s[a + 1] == x);
                assert(lex_lt(s[0], x));
                assert(t.to_set().contains(x));
                let b = choose|b: int| 0 <= b < t.len() && t[b] == x;
                if b == 0 {
                    lemma_lex_trichotomy(x, x);
                }
                assert(t1[b - 1] == x);
            }
            assert forall|x: Seq<char>| t1.to_set().contains(x) implies s1.to_set().contains(x) by {
                let a = choose|a: int| 0 <= a < t1.len() && t1[a] == x;
                assert(t[a + 1] == x);
                assert(lex_lt(t[0], x));
                assert(s.to_set().contains(x));
                let b = choose|b: int| 0 <= b < s.len() && s[b] == x;
                if b == 0 {
                    lemma_lex_trichotomy(x, x);
                }
                assert(s1[b - 1] == x);
            }
        }
        lemma_ascending_unique(s1, t1);
        assert(s =~= seq![s[0]] + s1);
        assert(t =~= seq![t[0]] + t1);
    }
}

/// A set of strings kept in ascending order.
#[derive(Debug, Clone)]
pub struct SortedSet {
    map: SortedMap<()>,
}

/// The members after adding `k`: unchanged when present, otherwise `k`
/// placed at its rank.
pub open spec fn set_insert_spec(s: Seq<Seq<char>>, k: Seq<char>) -> Seq<Seq<char>> {
    keys_of(insert_spec(s.map_values(|x: Seq<char>| (x, ())), k, ()))
}

impl SortedSet {
    /// The members, in ascending order.
    pub closed spec fn view(&self) -> Seq<Seq<char>> {
        keys_of(self.map.view())
    }

    /// The members strictly ascend.
    pub closed spec fn wf(&self) -> bool {
        self.map.wf()
    }

    /// The members as a set.
    pub open spec fn members(&self) -> Set<Seq<char>> {
        self.view().to_set()
    }

    /// An empty set.
    pub fn new() -> (s: SortedSet)
        ensures
            s.wf(),
            s.view() == Seq::<Seq<char>>::empty(),
    {
        let s = SortedSet { map: SortedMap::new() };
        assert(s.view() =~= Seq::<Seq<char>>::empty());
        s
    }

    /// The number of members.
    pub fn len(&self) -> (n: usize)
        ensures
            n == self.view().len(),
    {
        self.map.len()
    }

    /// Member `i` in ascending order.
    pub fn at(&self, i: usize) -> (k: &String)
        requires
            i < self.view().len(),
        ensures
            k@ == self.view()[i as int],
    {
        self.map.key_at(i)
    }

    /// Whether `key` is a member.
    pub fn contains(&self, key: &str) -> (r: bool)
        ensures
            r == self.view().contains(key@),
    {
        proof {
            lemma_lookup(self.map.view(), key@);
        }
        let r = self.map.get(key).is_some();
        proof {
            if self.view().contains(key@) {
                let i = choose|i: int| 0 <= i < self.view().len() && self.view()[i] == key@;
                assert(self.map.view()[i].0 == key@);
            }
            if r {
                let i = choose|i: int| 0 <= i < self.map.view().len() && #[trigger] self.map.view()[i].0 == key@;
                assert(self.view()[i] == key@);
            }
        }
        r
    }

    /// Add `key`, keeping the members ascending; a member already present is
    /// not added twice.
    pub fn insert(&mut self, key: String)
        requires
            old(self).wf(),
        ensures
            final(self).wf(),
            final(self).view() == set_insert_spec(old(self).view(), key@),
            forall|x: Seq<char>| #[trigger] final(self).view().contains(x) <==> (old(self).view().contains(x) || x == key@),
    {
        let ghost before = self.map.view();
        let ghost k = key@;
        proof {
            assert(self.map.view() =~= self.view().map_values(|x: Seq<char>| (x, ())));
        }
        self.map.insert(key, ());
        proof {
            assert forall|x: Seq<char>| #[trigger] self.view().contains(x) <==> (keys_of(before).contains(x) || x == k) by {
                lemma_insert_spec_keys(before, k, (), x);
            }
        }
    }

    /// The members strictly ascend, so none occurs twice.
    pub proof fn lemma_ascending(&self)
        requires
            self.wf(),
        ensures
            forall|i: int, j: int| 0 <= i < j < self.view().len() ==> lex_lt(#[trigger] self.view()[i], #[trigger] self.view()[j]),
    {
        assert forall|i: int, j: int| 0 <= i < j < self.view().len() implies lex_lt(#[trigger] self.view()[i], #[trigger] self.view()[j]) by {
            assert(self.view()[i] == self.map.view()[i].0);
            assert(self.view()[j] == self.map.view()[j].0);
        }
    }
}

} // verus!
