//! The per-phase code boundary: the row a completed phase records in its
//! slice's source-delta registry, the upsert by phase that keeps one row per
//! phase, and the decisions of the phase binding that stamps a phase's start
//! and records its boundary on completion.

use vstd::prelude::*;
use crate::state::PhaseStatus;
use crate::text::{str_eq, zero_padded, zero_padded_string};

verus! {

/// One phase's committed code boundary: the commit it started from and the
/// commit it ended on.
#[derive(Debug, Clone)]
pub struct BoundaryRow {
    pub phase: String,
    pub code_start_oid: String,
    pub code_end_oid: String,
}

/// A row by its text.
pub open spec fn row_text(r: BoundaryRow) -> (Seq<char>, Seq<char>, Seq<char>) {
    (r.phase@, r.code_start_oid@, r.code_end_oid@)
}

/// The rows by their text.
pub open spec fn rows_text(rows: Seq<BoundaryRow>) -> Seq<(Seq<char>, Seq<char>, Seq<char>)> {
    rows.map_values(|r: BoundaryRow| row_text(r))
}

/// The first row for `phase`.
pub open spec fn find_phase(rows: Seq<(Seq<char>, Seq<char>, Seq<char>)>, phase: Seq<char>) -> Option<int>
    decreases rows.len(),
{
    if rows.len() == 0 {
        None
    } else {
        match find_phase(rows.drop_last(), phase) {
            Some(i) => Some(i),
            None => if rows.last().0 == phase {
                Some(rows.len() - 1)
            } else {
                None
            },
        }
    }
}

/// The registry after recording `row`: the first row of its phase replaced,
/// or `row` appended when its phase has none.
pub open spec fn upsert_spec(rows: Seq<(Seq<char>, Seq<char>, Seq<char>)>, row: (Seq<char>, Seq<char>, Seq<char>)) -> Seq<(Seq<char>, Seq<char>, Seq<char>)> {
    match find_phase(rows, row.0) {
        Some(i) => rows.update(i, row),
        None => rows.push(row),
    }
}

/// `find_phase` is the first index of the phase.
pub proof fn lemma_find_phase(rows: Seq<(Seq<char>, Seq<char>, Seq<char>)>, phase: Seq<char>)
    ensures
        match find_phase(rows, phase) {
            Some(i) => 0 <= i < rows.len() && rows[i].0 == phase
                && forall|k: int| 0 <= k < i ==> (#[trigger] rows[k]).0 != phase,
            None => forall|k: int| 0 <= k < rows.len() ==> (#[trigger] rows[k]).0 != phase,
        },
    decreases rows.len(),
{
    if rows.len() > 0 {
        let d = rows.drop_last();
        lemma_find_phase(d, phase);
        assert forall|k: int| 0 <= k < d.len() implies #[trigger] d[k] == rows[k] by {}
        match find_phase(d, phase) {
            Some(i) => {
                assert forall|k: int| 0 <= k < i implies (#[trigger] rows[k]).0 != phase by {
                    assert(d[k] == rows[k]);
                }
            },
            None => {
                assert forall|k: int| 0 <= k < rows.len() - 1 implies (#[trigger] rows[k]).0 != phase by {
                    assert(d[k] == rows[k]);
                }
            },
        }
    }
}

/// The first index of the phase is what `find_phase` gives.
proof fn lemma_find_phase_at(rows: Seq<(Seq<char>, Seq<char>, Seq<char>)>, phase: Seq<char>, i: int)
    requires
        0 <= i < rows.len(),
        rows[i].0 == phase,
        forall|k: int| 0 <= k < i ==> (#[trigger] rows[k]).0 != phase,
    ensures
        find_phase(rows, phase) == Some(i),
{
    lemma_find_phase(rows, phase);
    match find_phase(rows, phase) {
        Some(j) => {
            if j < i {
                assert(rows[j].0 != phase);
            }
            if i < j {
                assert(rows[i].0 != phase);
            }
        },
        None => {
            assert(rows[i].0 != phase);
        },
    }
}

/// Record `row` in the registry, keyed by its phase: a row for the same phase
/// is replaced in place, otherwise `row` is appended.
pub fn upsert_boundary(rows: &mut Vec<BoundaryRow>, row: BoundaryRow)
    ensures
        rows_text(final(rows)@) == upsert_spec(rows_text(old(rows)@), row_text(row)),
{
    let ghost before = rows_text(rows@);
    let mut i: usize = 0;
    while i < rows.len()
        invariant
            i <= rows@.len(),
            rows_text(rows@) == before,
            before == rows_text(old(rows)@),
            forall|k: int| 0 <= k < i ==> (#[trigger] before[k]).0 != row.phase@,
        decreases rows.len() - i,
    {
        if str_eq(rows[i].phase.as_str(), row.phase.as_str()) {
            proof {
                lemma_find_phase_at(before, row.phase@, i as int);
            }
            rows.set(i, row);
            proof {
                assert(rows_text(rows@) =~= before.update(i as int, row_text(row)));
            }
            return;
        }
        proof {
            assert(before[i as int] == row_text(rows@[i as int]));
        }
        i = i + 1;
    }
    proof {
        lemma_find_phase(before, row.phase@);
        if find_phase(before, row.phase@) is Some {
            let j = find_phase(before, row.phase@)->0;
            assert(before[j].0 != row.phase@);
        }
    }
    let ghost r = row_text(row);
    rows.push(row);
    proof {
        assert(rows_text(rows@) =~= before.push(r));
    }
}

/// After recording a row, the registry's row for that phase is that row:
/// what a read gives back of a write.
pub proof fn lemma_upsert_then_find(rows: Seq<(Seq<char>, Seq<char>, Seq<char>)>, row: (Seq<char>, Seq<char>, Seq<char>))
    ensures
        find_phase(upsert_spec(rows, row), row.0) matches Some(i) && upsert_spec(rows, row)[i] == row,
{
    lemma_find_phase(rows, row.0);
    let u = upsert_spec(rows, row);
    match find_phase(rows, row.0) {
        Some(i) => {
            assert forall|k: int| 0 <= k < i implies (#[trigger] u[k]).0 != row.0 by {
                assert(u[k] == rows[k]);
            }
            lemma_find_phase_at(u, row.0, i);
        },
        None => {
            assert forall|k: int| 0 <= k < rows.len() implies (#[trigger] u[k]).0 != row.0 by {
                assert(u[k] == rows[k]);
            }
            lemma_find_phase_at(u, row.0, rows.len() as int);
        },
    }
}

/// Recording keeps one row per phase: a registry whose phases are distinct
/// still has distinct phases after an upsert.
pub proof fn lemma_upsert_keeps_phases_distinct(rows: Seq<(Seq<char>, Seq<char>, Seq<char>)>, row: (Seq<char>, Seq<char>, Seq<char>))
    requires
        forall|a: int, b: int| 0 <= a < b < rows.len() ==> (#[trigger] rows[a]).0 != (#[trigger] rows[b]).0,
    ensures
        forall|a: int, b: int| 0 <= a < b < upsert_spec(rows, row).len()
            ==> (#[trigger] upsert_spec(rows, row)[a]).0 != (#[trigger] upsert_spec(rows, row)[b]).0,
{
    lemma_find_phase(rows, row.0);
    let u = upsert_spec(rows, row);
    match find_phase(rows, row.0) {
        Some(i) => {
            assert forall|a: int, b: int| 0 <= a < b < u.len() implies (#[trigger] u[a]).0 != (#[trigger] u[b]).0 by {
                if a == i {
                    assert(rows[b].0 != rows[i].0);
                } else if b == i {
                    assert(rows[a].0 != rows[i].0);
                }
            }
        },
        None => {
            assert forall|a: int, b: int| 0 <= a < b < u.len() implies (#[trigger] u[a]).0 != (#[trigger] u[b]).0 by {
                if b == rows.len() {
                    assert(u[a] == rows[a]);
                }
            }
        },
    }
}

/// The branch a dispatch run of a slice works on: `dispatch/` and the
/// zero-padded id.
pub open spec fn dispatch_branch_spec(slice_id: nat) -> Seq<char> {
    "dispatch/"@ + zero_padded(slice_id, 3)
}

/// The name of the dispatch branch of a slice.
pub fn dispatch_branch(slice_id: u32) -> (s: String)
    ensures
        s@ == dispatch_branch_spec(slice_id as nat),
{
    let mut s = String::from_str("dispatch/");
    let n = zero_padded_string(slice_id as u64, 3);
    s.append(n.as_str());
    s
}

/// Only the start of work and its completion take part in the binding.
pub open spec fn binds(status: PhaseStatus) -> bool {
    status == PhaseStatus::InProgress || status == PhaseStatus::Completed
}

/// Whether a transition to `status` captures a boundary at all.
pub fn capture_binds(status: PhaseStatus) -> (r: bool)
    ensures
        r == binds(status),
{
    status == PhaseStatus::InProgress || status == PhaseStatus::Completed
}

/// The dispatch run of a slice records its boundaries itself, so the binding
/// stands aside on that branch: `true` when `branch` is not the slice's
/// dispatch branch (a detached head, `None`, is not).
pub fn branch_allows_capture(slice_id: u32, branch: Option<&str>) -> (r: bool)
    ensures
        r == !(branch matches Some(b) && b@ == dispatch_branch_spec(slice_id as nat)),
{
    match branch {
        Some(b) => {
            let d = dispatch_branch(slice_id);
            !str_eq(b, d.as_str())
        },
        None => true,
    }
}

/// What the binding does once the head commit is known.
#[derive(Debug, Clone, PartialEq, Eq)]
pub enum CaptureStep {
    /// Stamp the head as the phase's `code_start_oid`.
    StampStart(String),
    /// The start is already stamped; keep it.
    KeepStart,
    /// Record the boundary from the stamped start to the head.
    Record { start: String, end: String },
    /// The phase completes without a stamped start: nothing to record.
    NoStart,
}

/// The step of the binding for a transition to `status` (in progress or
/// completed), given the head commit and the sheet's `code_start_oid`: going
/// in progress stamps the head unless a start is stamped already (an empty
/// stamp counts as none); completing records start to head, or nothing when
/// no start is stamped.
pub fn capture_step(status: PhaseStatus, head: &str, start: Option<&str>) -> (r: CaptureStep)
    requires
        binds(status),
    ensures
        status == PhaseStatus::InProgress ==> match start {
            Some(s) => if s@.len() == 0 {
                r matches CaptureStep::StampStart(h) && h@ == head@
            } else {
                r == CaptureStep::KeepStart
            },
            None => r matches CaptureStep::StampStart(h) && h@ == head@,
        },
        status == PhaseStatus::Completed ==> match start {
            Some(s) => if s@.len() == 0 {
                r == CaptureStep::NoStart
            } else {
                r matches CaptureStep::Record { start: a, end: b } && a@ == s@ && b@ == head@
            },
            None => r == CaptureStep::NoStart,
        },
{
    let stamped = match start {
        Some(s) => s.unicode_len() > 0,
        None => false,
    };
    if status == PhaseStatus::InProgress {
        if stamped {
            CaptureStep::KeepStart
        } else {
            CaptureStep::StampStart(String::from_str(head))
        }
    } else {
        match start {
            Some(s) => if stamped {
                CaptureStep::Record { start: String::from_str(s), end: String::from_str(head) }
            } else {
                CaptureStep::NoStart
            },
            None => CaptureStep::NoStart,
        }
    }
}

/// The warning that names why a phase's capture was skipped.
pub fn capture_warning(phase_id: &str, detail: &str) -> (s: String)
    ensures
        s@ == "warning: phase-binding capture skipped for "@ + phase_id@ + ": "@ + detail@,
{
    let mut s = String::from_str("warning: phase-binding capture skipped for ");
    s.append(phase_id);
    s.append(": ");
    s.append(detail);
    s
}

} // verus!
