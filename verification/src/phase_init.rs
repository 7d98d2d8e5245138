//! The decisions of materialising a plan's phases: every phase id is
//! validated before anything is written, and tracking files whose phase left
//! the plan are found as orphans.

use vstd::prelude::*;
use crate::sorted::SortedSet;
use crate::state::{phase_stem, phase_stem_spec};
use crate::text::views;

verus! {

/// The first planned id that is not a valid phase id.
pub open spec fn first_invalid(ids: Seq<Seq<char>>) -> Option<int>
    decreases ids.len(),
{
    if ids.len() == 0 {
        None
    } else {
        match first_invalid(ids.drop_last()) {
            Some(i) => Some(i),
            None => if phase_stem_spec(ids.last()) is Err {
                Some(ids.len() - 1)
            } else {
                None
            },
        }
    }
}

/// The stems of planned ids, all valid.
pub open spec fn stems_of(ids: Seq<Seq<char>>) -> Seq<Seq<char>> {
    ids.map_values(|id: Seq<char>| phase_stem_spec(id)->Ok_0)
}

/// `first_invalid` is the first index whose id is refused.
proof fn lemma_first_invalid(ids: Seq<Seq<char>>)
    ensures
        match first_invalid(ids) {
            Some(i) => 0 <= i < ids.len() && phase_stem_spec(ids[i]) is Err
                && forall|k: int| 0 <= k < i ==> phase_stem_spec(#[trigger] ids[k]) is Ok,
            None => forall|k: int| 0 <= k < ids.len() ==> phase_stem_spec(#[trigger] ids[k]) is Ok,
        },
    decreases ids.len(),
{
    if ids.len() > 0 {
        let d = ids.drop_last();
        lemma_first_invalid(d);
        assert forall|k: int| 0 <= k < d.len() implies #[trigger] d[k] == ids[k] by {}
        match first_invalid(d) {
            Some(i) => {
                assert forall|k: int| 0 <= k < i implies phase_stem_spec(#[trigger] ids[k]) is Ok by {
                    assert(d[k] == ids[k]);
                }
            },
            None => {
                assert forall|k: int| 0 <= k < ids.len() - 1 implies phase_stem_spec(#[trigger] ids[k]) is Ok by {
                    assert(d[k] == ids[k]);
                }
            },
        }
    }
}

/// Derive the stem of every planned phase id, or refuse the first invalid one
/// with its message, before anything touches the disk: one malformed id
/// fails the whole plan.
pub fn plan_phase_stems(ids: &Vec<String>) -> (r: Result<Vec<String>, String>)
    ensures
        match first_invalid(views(ids@)) {
            Some(i) => r matches Err(m) && phase_stem_spec(ids@[i]@) == Err::<Seq<char>, Seq<char>>(m@),
            None => r matches Ok(stems) && views(stems@) == stems_of(views(ids@)),
        },
{
    let ghost vs = views(ids@);
    let mut stems: Vec<String> = Vec::new();
    let mut i: usize = 0;
    while i < ids.len()
        invariant
            i <= ids@.len(),
            vs == views(ids@),
            forall|k: int| 0 <= k < i ==> phase_stem_spec(#[trigger] vs[k]) is Ok,
            views(stems@) == stems_of(vs).take(i as int),
        decreases ids.len() - i,
    {
        match phase_stem(ids[i].as_str()) {
            Ok(stem) => {
                let ghost before = views(stems@);
                stems.push(stem);
                i = i + 1;
                proof {
                    assert(views(stems@) =~= stems_of(vs).take(i as int)) by {
                        assert(views(stems@) =~= before.push(stems_of(vs)[i - 1]));
                    }
                }
            },
            Err(m) => {
                proof {
                    lemma_first_invalid(vs);
                    match first_invalid(vs) {
                        Some(j) => {
                            if j < i {
                                assert(phase_stem_spec(vs[j]) is Ok);
                            }
                            if i < j {
                                assert(phase_stem_spec(vs[i as int]) is Ok);
                            }
                        },
                        None => {
                            assert(phase_stem_spec(vs[i as int]) is Ok);
                        },
                    }
                }
                return Err(m);
            },
        }
    }
    proof {
        lemma_first_invalid(vs);
        if first_invalid(vs) is Some {
            let j = first_invalid(vs)->0;
            assert(phase_stem_spec(vs[j]) is Ok);
        }
        assert(stems_of(vs).take(vs.len() as int) =~= stems_of(vs));
    }
    Ok(stems)
}

/// The stems on disk that the plan no longer declares, in ascending order.
pub open spec fn orphans_spec(existing: Seq<Seq<char>>, planned: Set<Seq<char>>) -> Seq<Seq<char>> {
    existing.filter(|s: Seq<char>| !planned.contains(s))
}

/// The orphans: each tracked stem the plan does not declare.
pub fn orphan_stems(existing: &SortedSet, planned: &SortedSet) -> (r: Vec<String>)
    requires
        existing.wf(),
        planned.wf(),
    ensures
        views(r@) == orphans_spec(existing.view(), planned.members()),
{
    let ghost f = |s: Seq<char>| !planned.members().contains(s);
    let mut r: Vec<String> = Vec::new();
    let mut i: usize = 0;
    while i < existing.len()
        invariant
            existing.wf(),
            planned.wf(),
            i <= existing.view().len(),
            f == (|s: Seq<char>| !planned.members().contains(s)),
            views(r@) == existing.view().take(i as int).filter(f),
        decreases existing.view().len() - i,
    {
        let stem = existing.at(i);
        let ghost before = views(r@);
        let ghost pre = existing.view().take(i as int);
        let keep = !planned.contains(stem.as_str());
        if keep {
            r.push(stem.clone());
        }
        proof {
            let nxt = existing.view().take(i + 1);
            assert(nxt.drop_last() =~= pre);
            assert(nxt.last() == stem@);
            reveal(Seq::filter);
            assert(nxt.filter(f) == if f(stem@) { pre.filter(f).push(stem@) } else { pre.filter(f) });
            if keep {
                assert(views(r@) =~= before.push(stem@));
            }
        }
        i = i + 1;
    }
    proof {
        assert(existing.view().take(existing.view().len() as int) =~= existing.view());
    }
    r
}

} // verus!
