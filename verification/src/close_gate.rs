//! The gates a slice's status change must pass when it crosses the closure
//! seam: no unresolved blocker review finding on either seam crossing; on
//! `reconcile → done`, no undischarged residual drift on a requirement the
//! slice answers for, and no dispatched code left off trunk. Each gate takes
//! what the scans found as plain values; the first that refuses decides the
//! message.

use vstd::prelude::*;
use crate::lifecycle::{crosses_closure_seam, crosses_closure_seam_spec};
use crate::listing::canonical_id_spec;
use crate::slice::{canonical_id, discharges_spec, latest_owning_rec_for, latest_owning_rec_spec, names_req,
    rec_discharges, RecDoc};
use crate::slice::transition_gate_spec;
use crate::slice_status::{has_status_keys, malformed_hint, set_slice_status, status_written};
use crate::text::{join, join_spec, str_eq, views};

verus! {

/// The latest owning record that moves `req`, as `latest_owning_rec_spec`
/// singles it out; `None` when no record moves it.
pub open spec fn latest_of(recs: Seq<RecDoc>, req: Seq<char>) -> Option<RecDoc> {
    if exists|i: int| latest_owning_rec_spec(recs, req, i) {
        Some(recs[choose|i: int| latest_owning_rec_spec(recs, req, i)])
    } else {
        None
    }
}

/// At most one index is the latest owning record.
proof fn lemma_latest_unique(recs: Seq<RecDoc>, req: Seq<char>, i: int, j: int)
    requires
        latest_owning_rec_spec(recs, req, i),
        latest_owning_rec_spec(recs, req, j),
    ensures
        i == j,
{
    if i < j {
        assert(names_req(recs[j], req));
    } else if j < i {
        assert(names_req(recs[i], req));
    }
}

/// The record `latest_owning_rec_for` picks is `latest_of`.
fn latest_record<'a>(recs: &'a Vec<RecDoc>, req: &str) -> (r: Option<&'a RecDoc>)
    ensures
        match r {
            Some(x) => latest_of(recs@, req@) == Some(*x),
            None => latest_of(recs@, req@) is None,
        },
{
    let r = latest_owning_rec_for(recs, req);
    proof {
        match r {
            Some(x) => {
                let i = choose|i: int| latest_owning_rec_spec(recs@, req@, i) && recs@[i] == *x;
                let c = choose|c: int| latest_owning_rec_spec(recs@, req@, c);
                lemma_latest_unique(recs@, req@, i, c);
            },
            None => {
                if exists|i: int| latest_owning_rec_spec(recs@, req@, i) {
                    let i = choose|i: int| latest_owning_rec_spec(recs@, req@, i);
                    assert(names_req(recs@[i], req@));
                }
            },
        }
    }
    r
}

/// Those of the slice's answerable requirements, kept in order, that drift
/// with no latest owning accepting record to discharge it: `drifted[i]` says whether `gate[i]` drifts
/// (its authored status against its scanned coverage), `authored[i]` is its
/// authored status and `residual[i]` its current drift evidence keys.
pub open spec fn undischarged_spec(gate: Seq<Seq<char>>, drifted: Seq<bool>, recs: Seq<RecDoc>, authored: Seq<Seq<char>>,
    residual: Seq<Seq<Seq<char>>>) -> Seq<Seq<char>>
    decreases gate.len(),
{
    if gate.len() == 0 {
        Seq::empty()
    } else {
        let n = gate.len() - 1;
        let before = undischarged_spec(gate.drop_last(), drifted, recs, authored, residual);
        if drifted[n] && !discharges_spec(latest_of(recs, gate[n]), gate[n], authored[n], residual[n]) {
            before.push(gate[n])
        } else {
            before
        }
    }
}

/// Which of the slice's answerable requirements keep an undischarged drift.
pub fn undischarged(gate: &Vec<String>, drifted: &Vec<bool>, recs: &Vec<RecDoc>, authored: &Vec<String>,
    residual: &Vec<Vec<String>>) -> (r: Vec<String>)
    requires
        drifted@.len() == gate@.len(),
        authored@.len() == gate@.len(),
        residual@.len() == gate@.len(),
    ensures
        views(r@) == undischarged_spec(views(gate@), drifted@, recs@, views(authored@),
            residual@.map_values(|v: Vec<String>| views(v@))),
{
    let ghost res = residual@.map_values(|v: Vec<String>| views(v@));
    let mut out: Vec<String> = Vec::new();
    let mut i: usize = 0;
    while i < gate.len()
        invariant
            i <= gate@.len(),
            drifted@.len() == gate@.len(),
            authored@.len() == gate@.len(),
            residual@.len() == gate@.len(),
            res == residual@.map_values(|v: Vec<String>| views(v@)),
            views(out@) == undischarged_spec(views(gate@).take(i as int), drifted@, recs@, views(authored@), res),
        decreases gate.len() - i,
    {
        proof {
            assert(views(gate@).take(i + 1).drop_last() =~= views(gate@).take(i as int));
        }
        let req = gate[i].as_str();
        if drifted[i] {
            let latest = latest_record(recs, req);
            if !rec_discharges(latest, req, authored[i].as_str(), &residual[i]) {
                let ghost before = views(out@);
                out.push(gate[i].clone());
                assert(views(out@) =~= before.push(gate@[i as int]@));
            }
        }
        i = i + 1;
    }
    proof {
        assert(views(gate@).take(gate@.len() as int) =~= views(gate@));
    }
    out
}

/// What became of the slice's dispatched code: never dispatched, integrated
/// into trunk, or held off it for the given reason.
#[derive(Debug, Clone, PartialEq, Eq)]
pub enum TrunkState {
    NotDispatched,
    Integrated,
    Blocked(String),
}

/// The head every refusal starts with: `slice SL-NNN → to: refused — `.
pub open spec fn refusal_head(id: nat, to: Seq<char>) -> Seq<char> {
    "slice "@ + canonical_id_spec("SL"@, id) + " → "@ + to + ": refused — "@
}

/// The close gates' verdict on moving slice `id` from `from` to `to`, given
/// the unresolved blocker findings (`RV-NNN/F-N` each), the undischarged
/// requirements and the trunk state: the first refusal in the order blockers,
/// drift, trunk, or passage.
pub open spec fn close_gate_spec(id: nat, from: Seq<char>, to: Seq<char>, blockers: Seq<Seq<char>>,
    undischarged: Seq<Seq<char>>, trunk: TrunkState) -> Result<(), Seq<char>> {
    let closing = from == "reconcile"@ && to == "done"@;
    if crosses_closure_seam_spec(from, to) && blockers.len() > 0 {
        Err(refusal_head(id, to) + "unresolved blocker review finding(s): "@ + join_spec(blockers, ", "@)
            + " (resolve via `review verify`/`review withdraw`, then retry)"@)
    } else if closing && undischarged.len() > 0 {
        Err(refusal_head(id, to) + "undischarged residual drift on requirement(s): "@ + join_spec(undischarged, ", "@)
            + " (reconcile each via an `accept` REC whose evidence covers the current drift, or resolve the drift, then retry)"@)
    } else if closing && trunk is Blocked {
        Err(refusal_head(id, to) + "dispatched code not integrated to trunk: "@ + trunk->Blocked_0@
            + " (run close step-3a `dispatch sync --integrate`, verify, retry)"@)
    } else {
        Ok(())
    }
}

/// The start of every refusal.
fn refusal(id: u32, to: &str) -> (s: String)
    ensures
        s@ == refusal_head(id as nat, to@),
{
    let mut s = String::from_str("slice ");
    let c = canonical_id(id);
    s.append(c.as_str());
    s.append(" → ");
    s.append(to);
    s.append(": refused — ");
    s
}

/// The close gates on moving slice `id` from `from` to `to`: a seam crossing
/// with unresolved blocker findings is refused; `reconcile → done` is also
/// refused with undischarged residual drift, or with dispatched code held off
/// trunk. The first refusal, in that order, names what blocks.
pub fn close_gate(id: u32, from: &str, to: &str, blockers: &Vec<String>, undischarged: &Vec<String>, trunk: &TrunkState)
    -> (r: Result<(), String>)
    ensures
        match close_gate_spec(id as nat, from@, to@, views(blockers@), views(undischarged@), *trunk) {
            Ok(()) => r is Ok,
            Err(m) => r matches Err(e) && e@ == m,
        },
        r is Err <==> (crosses_closure_seam_spec(from@, to@) && blockers@.len() > 0) || (from@ == "reconcile"@
            && to@ == "done"@ && (undischarged@.len() > 0 || *trunk is Blocked)),
{
    let closing = str_eq(from, "reconcile") && str_eq(to, "done");
    if crosses_closure_seam(from, to) && blockers.len() > 0 {
        let mut m = refusal(id, to);
        m.append("unresolved blocker review finding(s): ");
        let listed = join(blockers, ", ");
        m.append(listed.as_str());
        m.append(" (resolve via `review verify`/`review withdraw`, then retry)");
        return Err(m);
    }
    if closing && undischarged.len() > 0 {
        let mut m = refusal(id, to);
        m.append("undischarged residual drift on requirement(s): ");
        let listed = join(undischarged, ", ");
        m.append(listed.as_str());
        m.append(" (reconcile each via an `accept` REC whose evidence covers the current drift, or resolve the drift, then retry)");
        return Err(m);
    }
    if closing {
        match trunk {
            TrunkState::Blocked(reason) => {
                let mut m = refusal(id, to);
                m.append("dispatched code not integrated to trunk: ");
                m.append(reason.as_str());
                m.append(" (run close step-3a `dispatch sync --integrate`, verify, retry)");
                return Err(m);
            },
            _ => {},
        }
    }
    Ok(())
}

/// A slice's status change as the `slice status` verb makes it, on its held
/// toml: the close gates first (a refusal leaves the document as it was),
/// then the gated write of `status` and `updated`, which reports whether it
/// wrote.
pub fn change_slice_status(doc: &mut toml_edit::DocumentMut, id: u32, from: &str, to: &str, today: &str,
    blockers: &Vec<String>, undischarged: &Vec<String>, trunk: &TrunkState) -> (r: Result<bool, String>)
    ensures
        close_gate_spec(id as nat, from@, to@, views(blockers@), views(undischarged@), *trunk) matches Err(m)
            ==> (r matches Err(e) && e@ == m),
        close_gate_spec(id as nat, from@, to@, views(blockers@), views(undischarged@), *trunk) is Ok ==> {
            &&& transition_gate_spec(id as nat, from@, to@) matches Err(m) ==> (r matches Err(e) && e@ == m)
            &&& transition_gate_spec(id as nat, from@, to@) is Ok && from@ == to@ ==> r == Ok::<bool, String>(false)
            &&& transition_gate_spec(id as nat, from@, to@) is Ok && from@ != to@ && !has_status_keys(*old(doc))
                ==> (r matches Err(e) && e@ == malformed_hint(id as nat))
            &&& transition_gate_spec(id as nat, from@, to@) is Ok && from@ != to@ && has_status_keys(*old(doc))
                ==> r == Ok::<bool, String>(true) && status_written(*old(doc), *final(doc), to@, today@)
        },
        !(r == Ok::<bool, String>(true)) ==> *final(doc) == *old(doc),
{
    match close_gate(id, from, to, blockers, undischarged, trunk) {
        Err(m) => Err(m),
        Ok(()) => set_slice_status(doc, id, from, to, today),
    }
}

} // verus!
