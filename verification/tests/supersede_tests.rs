use doctrine::supersede::{supersede_policy, validate_matrix, RecordKind, StorageTarget};
use doctrine::supersede::RecordKind::{Assumption, Constraint, Decision, Evidence, Hypothesis, Question};

#[test]
fn supersede_policy_returns_some_for_pol() {
    let policy = supersede_policy("POL").unwrap();
    assert_eq!(policy.carveout_field, "superseded_by");
    assert_eq!(policy.superseded_status, "superseded");
    assert!(matches!(policy.storage, StorageTarget::RelationRow));
}

#[test]
fn supersede_policy_returns_some_for_std() {
    let policy = supersede_policy("STD").unwrap();
    assert_eq!(policy.carveout_field, "superseded_by");
    assert_eq!(policy.superseded_status, "superseded");
    assert!(matches!(policy.storage, StorageTarget::RelationRow));
}

#[test]
fn supersede_policy_returns_some_for_adr() {
    let policy = supersede_policy("ADR").unwrap();
    assert_eq!(policy.superseded_status, "superseded");
    assert!(matches!(policy.storage, StorageTarget::RelationRow));
}

#[test]
fn supersede_policy_storage_is_relation_row_for_governance() {
    for prefix in ["ADR", "POL", "STD"] {
        let policy = supersede_policy(prefix).unwrap();
        assert!(matches!(policy.storage, StorageTarget::RelationRow), "{prefix} should use RelationRow");
    }
}

#[test]
fn supersede_policy_storage_is_typed_array_for_records() {
    for (prefix, expected_status) in
        [("ASM", "obsolete"), ("DEC", "superseded"), ("QUE", "obsolete"), ("CON", "superseded"), ("EVD", "superseded")]
    {
        let policy = supersede_policy(prefix).unwrap();
        assert_eq!(policy.superseded_status, expected_status);
        assert!(
            matches!(policy.storage, StorageTarget::TypedArray { field: "supersedes" }),
            "{prefix} should use TypedArray"
        );
    }
}

#[test]
fn supersede_policy_returns_none_for_unsupported_kinds() {
    for prefix in ["SL", "IMP", "RV", "PRD", "REQ", "RSK"] {
        assert!(supersede_policy(prefix).is_none(), "{prefix} should be None");
    }
}

#[test]
fn validate_matrix_assumption_predecessor() {
    assert!(validate_matrix(Assumption, Assumption));
    assert!(validate_matrix(Decision, Assumption));
    assert!(validate_matrix(Constraint, Assumption));
    assert!(!validate_matrix(Question, Assumption));
}

#[test]
fn validate_matrix_question_predecessor() {
    assert!(validate_matrix(Question, Question));
    assert!(validate_matrix(Decision, Question));
    assert!(validate_matrix(Constraint, Question));
    assert!(validate_matrix(Assumption, Question));
}

#[test]
fn validate_matrix_decision_predecessor() {
    assert!(validate_matrix(Decision, Decision));
    assert!(validate_matrix(Constraint, Decision));
    assert!(!validate_matrix(Assumption, Decision));
    assert!(!validate_matrix(Question, Decision));
}

#[test]
fn validate_matrix_constraint_predecessor() {
    assert!(validate_matrix(Constraint, Constraint));
    assert!(validate_matrix(Decision, Constraint));
    assert!(!validate_matrix(Assumption, Constraint));
    assert!(!validate_matrix(Question, Constraint));
}

#[test]
fn every_kind_supersedes_its_own_kind() {
    for k in [Assumption, Decision, Question, Constraint, Evidence, Hypothesis] {
        assert!(validate_matrix(k, k));
        assert!(validate_matrix(Decision, k));
    }
}
