//! The slice lifecycle state machine: how a move from one authored status to
//! another is classified, and which moves cross the closure seam
//! (`audit → reconcile → done`).
//!
//! The forward chain is `proposed → design → plan → ready → started → audit →
//! reconcile → done`; `abandoned` is reachable from any non-terminal state;
//! `done` and `abandoned` are terminal. `reconcile` may be entered only from
//! `audit`, and `done` only from `reconcile`.

use vstd::prelude::*;
use crate::text::str_eq;

verus! {

/// The classification of a lifecycle move.
#[derive(Debug, Clone, Copy, PartialEq, Eq, Structural)]
pub enum Transition {
    /// One step forward along the chain.
    Advance,
    /// One of the named returns (`audit → started/design`, `reconcile → audit/design`).
    BackEdge,
    /// Any other move between non-terminal states; allowed.
    Skip,
    /// Into `abandoned` from a non-terminal state.
    Abandon,
    /// The target equals the source; nothing to write.
    Noop,
    /// Leaving `done` or `abandoned`; refused.
    FromTerminal,
    /// Into `reconcile` not from `audit`, or into `done` not from `reconcile`; refused.
    SeamBreach,
}

/// The position of a status on the forward chain, if it is on it.
pub open spec fn chain_rank(s: Seq<char>) -> Option<nat> {
    if s == "proposed"@ {
        Some(0)
    } else if s == "design"@ {
        Some(1)
    } else if s == "plan"@ {
        Some(2)
    } else if s == "ready"@ {
        Some(3)
    } else if s == "started"@ {
        Some(4)
    } else if s == "audit"@ {
        Some(5)
    } else if s == "reconcile"@ {
        Some(6)
    } else if s == "done"@ {
        Some(7)
    } else {
        None
    }
}

/// A status a slice cannot leave: `done` or `abandoned`.
pub open spec fn transition_terminal_spec(s: Seq<char>) -> bool {
    s == "done"@ || s == "abandoned"@
}

/// A move that violates the closure seam.
pub open spec fn seam_breach_spec(from: Seq<char>, to: Seq<char>) -> bool {
    (to == "reconcile"@ && from != "audit"@) || (to == "done"@ && from != "reconcile"@)
}

/// One of the four named back-edges.
pub open spec fn back_edge_spec(from: Seq<char>, to: Seq<char>) -> bool {
    (from == "audit"@ && (to == "started"@ || to == "design"@))
        || (from == "reconcile"@ && (to == "audit"@ || to == "design"@))
}

/// One step forward along the chain.
pub open spec fn advance_spec(from: Seq<char>, to: Seq<char>) -> bool {
    chain_rank(from) is Some && chain_rank(to) is Some
        && chain_rank(to)->0 == chain_rank(from)->0 + 1
}

/// The classification of the move `from → to`, checked in this order:
/// no-op, leaving a terminal, seam breach, abandon, advance, back-edge, skip.
pub open spec fn classify_spec(from: Seq<char>, to: Seq<char>) -> Transition {
    if from == to {
        Transition::Noop
    } else if transition_terminal_spec(from) {
        Transition::FromTerminal
    } else if seam_breach_spec(from, to) {
        Transition::SeamBreach
    } else if to == "abandoned"@ {
        Transition::Abandon
    } else if advance_spec(from, to) {
        Transition::Advance
    } else if back_edge_spec(from, to) {
        Transition::BackEdge
    } else {
        Transition::Skip
    }
}

/// Whether the move crosses the closure seam: exactly `audit → reconcile` or
/// `reconcile → done`.
pub open spec fn crosses_closure_seam_spec(from: Seq<char>, to: Seq<char>) -> bool {
    (from == "audit"@ && to == "reconcile"@) || (from == "reconcile"@ && to == "done"@)
}

/// Whether a classification lets the write go ahead.
pub open spec fn permitted(t: Transition) -> bool {
    t != Transition::FromTerminal && t != Transition::SeamBreach
}

/// The chain position of `s`, computed.
fn chain_rank_of(s: &str) -> (r: Option<u8>)
    ensures
        r is Some <==> chain_rank(s@) is Some,
        r is Some ==> r->0 as nat == chain_rank(s@)->0,
{
    if str_eq(s, "proposed") {
        Some(0)
    } else if str_eq(s, "design") {
        Some(1)
    } else if str_eq(s, "plan") {
        Some(2)
    } else if str_eq(s, "ready") {
        Some(3)
    } else if str_eq(s, "started") {
        Some(4)
    } else if str_eq(s, "audit") {
        Some(5)
    } else if str_eq(s, "reconcile") {
        Some(6)
    } else if str_eq(s, "done") {
        Some(7)
    } else {
        None
    }
}

/// Whether a slice in status `s` can no longer move (`done`, `abandoned`).
pub fn is_transition_terminal(s: &str) -> (r: bool)
    ensures
        r == transition_terminal_spec(s@),
{
    str_eq(s, "done") || str_eq(s, "abandoned")
}

/// Whether `from → to` crosses the closure seam — exactly `audit → reconcile`
/// and `reconcile → done`.
pub fn crosses_closure_seam(from: &str, to: &str) -> (r: bool)
    ensures
        r == crosses_closure_seam_spec(from@, to@),
{
    (str_eq(from, "audit") && str_eq(to, "reconcile"))
        || (str_eq(from, "reconcile") && str_eq(to, "done"))
}

/// Classify the lifecycle move `from → to`.
pub fn classify(from: &str, to: &str) -> (t: Transition)
    ensures
        t == classify_spec(from@, to@),
{
    if str_eq(from, to) {
        Transition::Noop
    } else if is_transition_terminal(from) {
        Transition::FromTerminal
    } else if (str_eq(to, "reconcile") && !str_eq(from, "audit"))
        || (str_eq(to, "done") && !str_eq(from, "reconcile")) {
        Transition::SeamBreach
    } else if str_eq(to, "abandoned") {
        Transition::Abandon
    } else {
        let rf = chain_rank_of(from);
        let rt = chain_rank_of(to);
        let advance = match (rf, rt) {
            (Some(a), Some(b)) => a < 7 && b == a + 1,
            _ => false,
        };
        if advance {
            Transition::Advance
        } else if (str_eq(from, "audit") && (str_eq(to, "started") || str_eq(to, "design")))
            || (str_eq(from, "reconcile") && (str_eq(to, "audit") || str_eq(to, "design"))) {
            Transition::BackEdge
        } else {
            Transition::Skip
        }
    }
}

/// A move is a no-op exactly when source and target are the same status.
pub proof fn lemma_noop_iff_unchanged(from: Seq<char>, to: Seq<char>)
    ensures
        (classify_spec(from, to) == Transition::Noop) <==> (from == to),
{
}

/// A terminal status is a sink: every move out of it is refused.
pub proof fn lemma_terminal_is_a_sink(from: Seq<char>, to: Seq<char>)
    requires
        transition_terminal_spec(from),
        from != to,
    ensures
        classify_spec(from, to) == Transition::FromTerminal,
        !permitted(classify_spec(from, to)),
{
}

/// The closure seam binds: a permitted move that changes the status and lands
/// on `reconcile` or `done` is exactly one of the two seam crossings, and each
/// seam crossing is itself an advance.
pub proof fn lemma_closure_seam(from: Seq<char>, to: Seq<char>)
    ensures
        (permitted(classify_spec(from, to)) && from != to && (to == "reconcile"@ || to == "done"@))
            ==> crosses_closure_seam_spec(from, to),
        crosses_closure_seam_spec(from, to) ==> classify_spec(from, to) == Transition::Advance,
{
    reveal_strlit("audit");
    reveal_strlit("reconcile");
    reveal_strlit("done");
    reveal_strlit("abandoned");
    reveal_strlit("proposed");
    reveal_strlit("design");
    reveal_strlit("plan");
    reveal_strlit("ready");
    reveal_strlit("started");
    assert("audit"@.len() == 5);
    assert("ready"@.len() == 5);
    assert("reconcile"@.len() == 9);
    assert("abandoned"@.len() == 9);
    assert("done"@.len() == 4);
    assert("plan"@.len() == 4);
    assert("design"@.len() == 6);
    assert("started"@.len() == 7);
    assert("proposed"@.len() == 8);
    assert("audit"@[0] != "ready"@[0]);
    assert("reconcile"@[0] != "abandoned"@[0]);
    assert("done"@[0] != "plan"@[0]);
    assert("audit"@ != "ready"@);
    assert("reconcile"@ != "abandoned"@);
    assert("done"@ != "plan"@);
    if from == "audit"@ && to == "reconcile"@ {
        assert(chain_rank(from) == Some(5nat));
        assert(chain_rank(to) == Some(6nat));
        assert(!transition_terminal_spec(from));
        assert(!seam_breach_spec(from, to));
        assert(from != to);
    }
    if from == "reconcile"@ && to == "done"@ {
        assert(chain_rank(from) == Some(6nat));
        assert(chain_rank(to) == Some(7nat));
        assert(!transition_terminal_spec(from));
        assert(!seam_breach_spec(from, to));
        assert(from != to);
    }
}


/// Every change of status that starts outside `done` and `abandoned` and
/// lands neither on `reconcile` nor on `done` is allowed: only leaving a
/// terminal status and entering the closure seam can be refused.
pub proof fn lemma_non_seam_moves_are_allowed(from: Seq<char>, to: Seq<char>)
    requires
        from != to,
        from != "done"@,
        from != "abandoned"@,
        to != "reconcile"@,
        to != "done"@,
    ensures
        classify_spec(from, to) != Transition::FromTerminal,
        classify_spec(from, to) != Transition::SeamBreach,
{
}

/// A backward move along the forward chain, from a status other than `done`,
/// that is none of the four named returns, is a skip: allowed, not refused.
pub proof fn lemma_unnamed_backward_move_is_a_skip(from: Seq<char>, to: Seq<char>)
    requires
        chain_rank(from) is Some,
        chain_rank(to) is Some,
        chain_rank(to)->0 < chain_rank(from)->0,
        from != "done"@,
        !(from == "audit"@ && (to == "started"@ || to == "design"@)),
        !(from == "reconcile"@ && (to == "audit"@ || to == "design"@)),
    ensures
        classify_spec(from, to) == Transition::Skip,
{
    reveal_strlit("audit");
    reveal_strlit("reconcile");
    reveal_strlit("done");
    reveal_strlit("abandoned");
    reveal_strlit("proposed");
    reveal_strlit("design");
    reveal_strlit("plan");
    reveal_strlit("ready");
    reveal_strlit("started");
    assert("audit"@.len() == 5);
    assert("ready"@.len() == 5);
    assert("reconcile"@.len() == 9);
    assert("abandoned"@.len() == 9);
    assert("done"@.len() == 4);
    assert("plan"@.len() == 4);
    assert("design"@.len() == 6);
    assert("started"@.len() == 7);
    assert("proposed"@.len() == 8);
    assert("audit"@[0] != "ready"@[0]);
    assert("reconcile"@[0] != "abandoned"@[0]);
    assert("done"@[0] != "plan"@[0]);
    assert("audit"@ != "ready"@);
    assert("reconcile"@ != "abandoned"@);
    assert("done"@ != "plan"@);
}


/// From any status other than `done` and `abandoned`, moving to `abandoned`
/// is an abandon, and one step forward along the chain is an advance.
pub proof fn lemma_abandon_and_step_forward(from: Seq<char>, to: Seq<char>)
    requires
        from != "done"@,
        from != "abandoned"@,
    ensures
        to == "abandoned"@ ==> classify_spec(from, to) == Transition::Abandon,
        (chain_rank(from) is Some && chain_rank(to) is Some && chain_rank(to)->0 == chain_rank(from)->0 + 1)
            ==> classify_spec(from, to) == Transition::Advance,
{
    reveal_strlit("audit");
    reveal_strlit("reconcile");
    reveal_strlit("done");
    reveal_strlit("abandoned");
    reveal_strlit("proposed");
    reveal_strlit("design");
    reveal_strlit("plan");
    reveal_strlit("ready");
    reveal_strlit("started");
    assert("audit"@.len() == 5);
    assert("ready"@.len() == 5);
    assert("reconcile"@.len() == 9);
    assert("abandoned"@.len() == 9);
    assert("done"@.len() == 4);
    assert("plan"@.len() == 4);
    assert("design"@.len() == 6);
    assert("started"@.len() == 7);
    assert("proposed"@.len() == 8);
    assert("audit"@[0] != "ready"@[0]);
    assert("reconcile"@[0] != "abandoned"@[0]);
    assert("done"@[0] != "plan"@[0]);
    assert("audit"@ != "ready"@);
    assert("reconcile"@ != "abandoned"@);
    assert("done"@ != "plan"@);
}

} // verus!
