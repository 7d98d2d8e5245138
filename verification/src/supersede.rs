//! Which kinds may supersede, how the supersession is written, and which
//! record kinds may supersede which.

use vstd::prelude::*;
use crate::text::str_eq;

verus! {

/// How the outbound supersession edge is written for a kind.
#[derive(Debug, Clone, Copy, PartialEq, Eq)]
pub enum StorageTarget {
    /// A relation row (governance kinds).
    RelationRow,
    /// A typed array field (record kinds).
    TypedArray { field: &'static str },
}

/// The supersession vocabulary of a kind.
#[derive(Debug, Clone, Copy)]
pub struct SupersedePolicy {
    pub storage: StorageTarget,
    pub carveout_field: &'static str,
    pub superseded_status: &'static str,
}

/// The policy of the kind with `prefix`: governance kinds write relation
/// rows and leave the old entry `superseded`; assumptions and questions write
/// the `supersedes` array and leave it `obsolete`; decisions, constraints and
/// evidence write the array and leave it `superseded`; no other kind may
/// supersede.
pub open spec fn supersede_policy_spec(prefix: Seq<char>) -> Option<(bool, Seq<char>)> {
    if prefix == "ADR"@ || prefix == "POL"@ || prefix == "STD"@ {
        Some((true, "superseded"@))
    } else if prefix == "ASM"@ || prefix == "QUE"@ {
        Some((false, "obsolete"@))
    } else if prefix == "DEC"@ || prefix == "CON"@ || prefix == "EVD"@ {
        Some((false, "superseded"@))
    } else {
        None
    }
}

/// The supersession policy of the kind with `prefix`, if it may supersede.
pub fn supersede_policy(prefix: &str) -> (r: Option<SupersedePolicy>)
    ensures
        match supersede_policy_spec(prefix@) {
            None => r is None,
            Some((relation_row, status)) => r matches Some(p)
                && p.carveout_field@ == "superseded_by"@
                && p.superseded_status@ == status
                && (relation_row ==> p.storage == StorageTarget::RelationRow)
                && (!relation_row ==> (p.storage matches StorageTarget::TypedArray { field: f } && f@ == "supersedes"@)),
        },
{
    if str_eq(prefix, "ADR") || str_eq(prefix, "POL") || str_eq(prefix, "STD") {
        Some(SupersedePolicy {
            storage: StorageTarget::RelationRow,
            carveout_field: "superseded_by",
            superseded_status: "superseded",
        })
    } else if str_eq(prefix, "ASM") || str_eq(prefix, "QUE") {
        Some(SupersedePolicy {
            storage: StorageTarget::TypedArray { field: "supersedes" },
            carveout_field: "superseded_by",
            superseded_status: "obsolete",
        })
    } else if str_eq(prefix, "DEC") || str_eq(prefix, "CON") || str_eq(prefix, "EVD") {
        Some(SupersedePolicy {
            storage: StorageTarget::TypedArray { field: "supersedes" },
            carveout_field: "superseded_by",
            superseded_status: "superseded",
        })
    } else {
        None
    }
}

/// The knowledge-record kinds.
#[derive(Debug, Clone, Copy, PartialEq, Eq, Structural)]
pub enum RecordKind {
    Assumption,
    Decision,
    Question,
    Constraint,
    Evidence,
    Hypothesis,
}

/// Whether a record of kind `new` may supersede one of kind `old`.
pub open spec fn matrix_spec(new: RecordKind, old: RecordKind) -> bool {
    match old {
        RecordKind::Assumption => new == RecordKind::Assumption || new == RecordKind::Decision
            || new == RecordKind::Constraint,
        RecordKind::Question => new == RecordKind::Question || new == RecordKind::Decision
            || new == RecordKind::Constraint || new == RecordKind::Assumption,
        RecordKind::Decision => new == RecordKind::Decision || new == RecordKind::Constraint,
        RecordKind::Constraint => new == RecordKind::Constraint || new == RecordKind::Decision,
        RecordKind::Evidence => new == RecordKind::Evidence || new == RecordKind::Decision
            || new == RecordKind::Constraint,
        RecordKind::Hypothesis => new == RecordKind::Hypothesis || new == RecordKind::Decision
            || new == RecordKind::Constraint || new == RecordKind::Assumption,
    }
}

/// Whether `new` may supersede `old` under the cross-kind matrix.
pub fn validate_matrix(new: RecordKind, old: RecordKind) -> (r: bool)
    ensures
        r == matrix_spec(new, old),
{
    match old {
        RecordKind::Assumption => new == RecordKind::Assumption || new == RecordKind::Decision
            || new == RecordKind::Constraint,
        RecordKind::Question => new == RecordKind::Question || new == RecordKind::Decision
            || new == RecordKind::Constraint || new == RecordKind::Assumption,
        RecordKind::Decision => new == RecordKind::Decision || new == RecordKind::Constraint,
        RecordKind::Constraint => new == RecordKind::Constraint || new == RecordKind::Decision,
        RecordKind::Evidence => new == RecordKind::Evidence || new == RecordKind::Decision
            || new == RecordKind::Constraint,
        RecordKind::Hypothesis => new == RecordKind::Hypothesis || new == RecordKind::Decision
            || new == RecordKind::Constraint || new == RecordKind::Assumption,
    }
}

/// Every kind may supersede a record of its own kind, and a decision or a
/// constraint may supersede any record.
pub proof fn lemma_matrix_reflexive_and_decisions_supersede_all(k: RecordKind)
    ensures
        matrix_spec(k, k),
        matrix_spec(RecordKind::Decision, k),
        matrix_spec(RecordKind::Constraint, k),
{
}

} // verus!
