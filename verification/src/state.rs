//! Phase tracking: the runtime status vocabulary of a phase, the completion
//! rollup folded from per-phase statuses, phase-id validation, the rendered
//! tracking skeleton, and the completeness cross-check between recorded
//! source-delta rows and completed phases.

use vstd::prelude::*;
use crate::text::{str_eq, join_path, join_path_spec, zero_padded, zero_padded_string, chars_of,
    prefix_at, has_prefix, string_of_range, debug_str, debug_quoted, replace_all, replace_all_spec, views,
    lex_lt};
use crate::sorted::{SortedMap, SortedSet, lookup, lemma_lookup, lemma_lookup_unique, lemma_insert_then_lookup,
    keys_of};

verus! {

/// A phase's runtime lifecycle status.
#[derive(Debug, Clone, Copy, PartialEq, Eq, Structural)]
pub enum PhaseStatus {
    Planned,
    InProgress,
    Completed,
    Blocked,
}

/// The stored spelling of a phase status.
pub open spec fn phase_status_text(s: PhaseStatus) -> Seq<char> {
    match s {
        PhaseStatus::Planned => "planned"@,
        PhaseStatus::InProgress => "in_progress"@,
        PhaseStatus::Completed => "completed"@,
        PhaseStatus::Blocked => "blocked"@,
    }
}

impl PhaseStatus {
    /// The stored spelling (`planned`, `in_progress`, `completed`, `blocked`).
    pub fn as_str(self) -> (s: &'static str)
        ensures
            s@ == phase_status_text(self),
    {
        match self {
            PhaseStatus::Planned => "planned",
            PhaseStatus::InProgress => "in_progress",
            PhaseStatus::Completed => "completed",
            PhaseStatus::Blocked => "blocked",
        }
    }

    /// The status a stored spelling names, matched exactly; `None` when the
    /// spelling is outside the vocabulary.
    pub fn parse(s: &str) -> (r: Option<PhaseStatus>)
        ensures
            r == parse_phase_status_spec(s@),
    {
        if str_eq(s, "planned") {
            Some(PhaseStatus::Planned)
        } else if str_eq(s, "in_progress") {
            Some(PhaseStatus::InProgress)
        } else if str_eq(s, "completed") {
            Some(PhaseStatus::Completed)
        } else if str_eq(s, "blocked") {
            Some(PhaseStatus::Blocked)
        } else {
            None
        }
    }
}

/// The status a stored spelling names, if any.
pub open spec fn parse_phase_status_spec(s: Seq<char>) -> Option<PhaseStatus> {
    if s == "planned"@ {
        Some(PhaseStatus::Planned)
    } else if s == "in_progress"@ {
        Some(PhaseStatus::InProgress)
    } else if s == "completed"@ {
        Some(PhaseStatus::Completed)
    } else if s == "blocked"@ {
        Some(PhaseStatus::Blocked)
    } else {
        None
    }
}

/// A phase's contribution to the rollup: the status string read from its
/// tracking file, or a crash-partial whose tracking file is missing.
#[derive(Debug, PartialEq, Eq)]
pub enum StemStatus<'a> {
    Toml(&'a str),
    MissingToml,
}

/// The rollup bucket of one phase: 0 planned, 1 in progress, 2 completed,
/// 3 blocked, 4 unknown status, 5 missing tracking file.
pub open spec fn bucket(s: StemStatus) -> nat {
    match s {
        StemStatus::MissingToml => 5,
        StemStatus::Toml(t) => match parse_phase_status_spec(t@) {
            Some(PhaseStatus::Planned) => 0,
            Some(PhaseStatus::InProgress) => 1,
            Some(PhaseStatus::Completed) => 2,
            Some(PhaseStatus::Blocked) => 3,
            None => 4,
        },
    }
}

/// How many of `stems` fall in bucket `b`.
pub open spec fn bucket_count(stems: Seq<StemStatus>, b: nat) -> nat
    decreases stems.len(),
{
    if stems.len() == 0 {
        0
    } else {
        bucket_count(stems.drop_last(), b) + if bucket(stems.last()) == b { 1nat } else { 0nat }
    }
}

/// Completion counts for one slice's phases; every phase lands in exactly one
/// bucket.
#[derive(Debug, Default, Clone, Copy, PartialEq, Eq, Structural)]
pub struct PhaseRollup {
    pub planned: u32,
    pub in_progress: u32,
    pub completed: u32,
    pub blocked: u32,
    pub unknown: u32,
    pub missing_toml: u32,
}

/// The sum of all six buckets.
pub open spec fn rollup_total(r: PhaseRollup) -> int {
    r.planned + r.in_progress + r.completed + r.blocked + r.unknown + r.missing_toml
}

/// The malformed phases: unknown status plus missing tracking file.
pub open spec fn rollup_anomalies(r: PhaseRollup) -> int {
    r.unknown + r.missing_toml
}

impl PhaseRollup {
    /// Every phase, summed across buckets.
    pub fn total(&self) -> (t: u32)
        requires
            rollup_total(*self) <= u32::MAX,
        ensures
            t == rollup_total(*self),
    {
        self.planned + self.in_progress + self.completed + self.blocked + self.unknown
            + self.missing_toml
    }

    /// Phases whose tracking is malformed (unknown status or missing file).
    pub fn anomalies(&self) -> (a: u32)
        requires
            rollup_anomalies(*self) <= u32::MAX,
        ensures
            a == rollup_anomalies(*self),
    {
        self.unknown + self.missing_toml
    }
}

/// The rollup whose buckets count the stems of each kind.
pub open spec fn folds_to(stems: Seq<StemStatus>, r: PhaseRollup) -> bool {
    &&& r.planned == bucket_count(stems, 0)
    &&& r.in_progress == bucket_count(stems, 1)
    &&& r.completed == bucket_count(stems, 2)
    &&& r.blocked == bucket_count(stems, 3)
    &&& r.unknown == bucket_count(stems, 4)
    &&& r.missing_toml == bucket_count(stems, 5)
}

/// Each bucket holds at most as many stems as there are.
proof fn lemma_bucket_count_bounded(stems: Seq<StemStatus>, b: nat)
    ensures
        bucket_count(stems, b) <= stems.len(),
    decreases stems.len(),
{
    if stems.len() > 0 {
        lemma_bucket_count_bounded(stems.drop_last(), b);
    }
}

/// The six buckets partition the stems.
pub proof fn lemma_buckets_partition(stems: Seq<StemStatus>)
    ensures
        bucket_count(stems, 0) + bucket_count(stems, 1) + bucket_count(stems, 2)
            + bucket_count(stems, 3) + bucket_count(stems, 4) + bucket_count(stems, 5)
            == stems.len(),
    decreases stems.len(),
{
    if stems.len() > 0 {
        lemma_buckets_partition(stems.drop_last());
    }
}

/// Fold per-phase statuses into the bucket counts. An unrecognised status
/// lands in `unknown`, a missing tracking file in `missing_toml`.
pub fn fold_rollup(stems: &[StemStatus]) -> (r: PhaseRollup)
    requires
        stems@.len() <= u32::MAX,
    ensures
        folds_to(stems@, r),
{
    let mut r = PhaseRollup {
        planned: 0,
        in_progress: 0,
        completed: 0,
        blocked: 0,
        unknown: 0,
        missing_toml: 0,
    };
    let mut i: usize = 0;
    while i < stems.len()
        invariant
            i <= stems@.len(),
            stems@.len() <= u32::MAX,
            folds_to(stems@.take(i as int), r),
        decreases stems.len() - i,
    {
        let ghost pre = stems@.take(i as int);
        let ghost post = stems@.take(i + 1);
        assert(post.drop_last() =~= pre);
        proof {
            lemma_buckets_partition(pre);
        }
        match &stems[i] {
            StemStatus::MissingToml => r.missing_toml = r.missing_toml + 1,
            StemStatus::Toml(s) => match PhaseStatus::parse(s) {
                Some(PhaseStatus::Planned) => r.planned = r.planned + 1,
                Some(PhaseStatus::InProgress) => r.in_progress = r.in_progress + 1,
                Some(PhaseStatus::Completed) => r.completed = r.completed + 1,
                Some(PhaseStatus::Blocked) => r.blocked = r.blocked + 1,
                None => r.unknown = r.unknown + 1,
            },
        }
        i = i + 1;
    }
    assert(stems@.take(stems@.len() as int) =~= stems@);
    r
}

/// Folding never drops a phase: the rollup's total is the number of phases.
pub proof fn lemma_fold_counts_every_phase(stems: Seq<StemStatus>, r: PhaseRollup)
    requires
        folds_to(stems, r),
    ensures
        rollup_total(r) == stems.len(),
{
    lemma_buckets_partition(stems);
}

/// The slice-scoped runtime state tree, relative to the project root.
pub const STATE_SLICE_DIR: &'static str = ".doctrine/state/slice";

/// The authored slice tree.
pub const SLICE_DIR: &'static str = ".doctrine/slice";

/// `<root>/.doctrine/state/slice/<NNN>/<leaf>`.
pub open spec fn slice_state_path(root: Seq<char>, slice_id: nat, leaf: Seq<char>) -> Seq<char> {
    join_path_spec(join_path_spec(join_path_spec(root, STATE_SLICE_DIR@), zero_padded(slice_id, 3)), leaf)
}

fn slice_state_file(root: &str, slice_id: u32, leaf: &str) -> (p: String)
    ensures
        p@ == slice_state_path(root@, slice_id as nat, leaf@),
{
    let a = join_path(root, STATE_SLICE_DIR);
    let n = zero_padded_string(slice_id as u64, 3);
    let b = join_path(a.as_str(), n.as_str());
    join_path(b.as_str(), leaf)
}

/// The phase tracking directory of a slice, computed from its id.
pub fn phases_dir(project_root: &str, slice_id: u32) -> (p: String)
    ensures
        p@ == slice_state_path(project_root@, slice_id as nat, "phases"@),
{
    slice_state_file(project_root, slice_id, "phases")
}

/// The source-delta registry of a slice, under the primary working tree.
pub fn boundaries_path(primary_root: &str, slice_id: u32) -> (p: String)
    ensures
        p@ == slice_state_path(primary_root@, slice_id as nat, "boundaries.toml"@),
{
    slice_state_file(primary_root, slice_id, "boundaries.toml")
}

/// An ASCII digit.
pub open spec fn ascii_digit(c: char) -> bool {
    '0' <= c && c <= '9'
}

/// A canonical phase id: `PHASE-` then one or more ASCII digits.
pub open spec fn valid_phase_id(id: Seq<char>) -> bool {
    has_prefix(id, "PHASE-"@) && id.len() > 6
        && forall|i: int| 6 <= i < id.len() ==> ascii_digit(#[trigger] id[i])
}

/// The stem of a phase id: `phase-` and its digits; anything else is refused,
/// naming the id.
pub open spec fn phase_stem_spec(id: Seq<char>) -> Result<Seq<char>, Seq<char>> {
    if valid_phase_id(id) {
        Ok("phase-"@ + id.skip(6))
    } else {
        Err("Phase id "@ + debug_quoted(id) + " must match PHASE-<digits>"@)
    }
}

fn digits_from(cs: &Vec<char>, start: usize) -> (r: bool)
    requires
        start <= cs@.len(),
    ensures
        r == forall|k: int| start <= k < cs@.len() ==> ascii_digit(#[trigger] cs@[k]),
{
    let mut i: usize = start;
    while i < cs.len()
        invariant
            start <= i <= cs@.len(),
            forall|k: int| start <= k < i ==> ascii_digit(#[trigger] cs@[k]),
        decreases cs.len() - i,
    {
        if !('0' <= cs[i] && cs[i] <= '9') {
            return false;
        }
        i = i + 1;
    }
    true
}

/// Validate a phase id and derive its file stem (`PHASE-07` → `phase-07`).
pub fn phase_stem(phase_id: &str) -> (r: Result<String, String>)
    ensures
        match phase_stem_spec(phase_id@) {
            Ok(t) => r matches Ok(s) && s@ == t,
            Err(m) => r matches Err(s) && s@ == m,
        },
{
    proof {
        reveal_strlit("PHASE-");
    }
    let cs = chars_of(phase_id);
    let n = cs.len();
    assert(cs@.skip(0) =~= phase_id@);
    if prefix_at(&cs, "PHASE-", 0) && n > 6 && digits_from(&cs, 6) {
        let mut s = String::from_str("phase-");
        let d = string_of_range(&cs, 6, n);
        assert(d@ =~= phase_id@.skip(6));
        s.append(d.as_str());
        Ok(s)
    } else {
        let mut m = String::from_str("Phase id ");
        let q = debug_str(phase_id);
        m.append(q.as_str());
        m.append(" must match PHASE-<digits>");
        Err(m)
    }
}

/// The phase id a stem names: `PHASE-` then the stem without its `phase-`
/// prefix (the whole stem when it lacks one).
pub open spec fn phase_id_from_stem_spec(stem: Seq<char>) -> Seq<char> {
    if has_prefix(stem, "phase-"@) {
        "PHASE-"@ + stem.skip(6)
    } else {
        "PHASE-"@ + stem
    }
}

/// Recover the canonical phase id from a file stem.
pub fn phase_id_from_stem(stem: &str) -> (r: String)
    ensures
        r@ == phase_id_from_stem_spec(stem@),
{
    proof {
        reveal_strlit("phase-");
    }
    let cs = chars_of(stem);
    let mut r = String::from_str("PHASE-");
    assert(cs@.skip(0) =~= stem@);
    if prefix_at(&cs, "phase-", 0) {
        let rest = string_of_range(&cs, 6, cs.len());
        assert(rest@ =~= stem@.skip(6));
        r.append(rest.as_str());
    } else {
        r.append(stem);
    }
    r
}

/// A valid phase id survives the trip to its stem and back.
pub proof fn lemma_phase_stem_round_trip(id: Seq<char>)
    requires
        valid_phase_id(id),
    ensures
        phase_stem_spec(id) matches Ok(stem) && phase_id_from_stem_spec(stem) == id,
{
    reveal_strlit("PHASE-");
    reveal_strlit("phase-");
    let stem = "phase-"@ + id.skip(6);
    assert(stem.take(6) =~= "phase-"@);
    assert(stem.skip(6) =~= id.skip(6));
    assert(id.take(6) =~= "PHASE-"@);
    assert(id =~= "PHASE-"@ + id.skip(6));
}

/// The phase tracking skeleton: schema, version, the phase id, `planned`
/// status, empty timestamps, and the header of the progress log.
pub open spec fn render_tracking_spec(phase_id: Seq<char>) -> Seq<char> {
    "schema  = \"doctrine.phase.tracking\"\nversion = 1\nphase   = \""@ + phase_id
        + "\"\nstatus  = \"planned\"   # planned | in_progress | completed | blocked\nstarted      = \"\"\ncompleted    = \"\"\nlast_updated = \"\"\n\n# Append-only runtime progress log, written by `doctrine slice phase`.\n"@
}

/// Render the tracking skeleton of a phase.
pub fn render_tracking(phase_id: &str) -> (s: String)
    ensures
        s@ == render_tracking_spec(phase_id@),
{
    let mut s = String::from_str("schema  = \"doctrine.phase.tracking\"\nversion = 1\nphase   = \"");
    s.append(phase_id);
    s.append("\"\nstatus  = \"planned\"   # planned | in_progress | completed | blocked\nstarted      = \"\"\ncompleted    = \"\"\nlast_updated = \"\"\n\n# Append-only runtime progress log, written by `doctrine slice phase`.\n");
    s
}

/// One phase of a slice's plan.
#[derive(Debug, Clone)]
pub struct PlanPhase {
    pub id: String,
    pub name: String,
    pub objective: String,
}

/// The phase sheet: the template with `{{phase_id}}`, `{{name}}` and
/// `{{objective}}` filled in that order.
pub open spec fn render_phase_sheet_spec(template: Seq<char>, phase: PlanPhase) -> Seq<char> {
    replace_all_spec(
        replace_all_spec(replace_all_spec(template, "{{phase_id}}"@, phase.id@), "{{name}}"@, phase.name@),
        "{{objective}}"@, phase.objective@)
}

/// Render the disposable phase sheet from its template.
pub fn render_phase_sheet(template: &str, phase: &PlanPhase) -> (s: String)
    ensures
        s@ == render_phase_sheet_spec(template@, *phase),
{
    proof {
        reveal_strlit("{{phase_id}}");
        reveal_strlit("{{name}}");
        reveal_strlit("{{objective}}");
    }
    let a = replace_all(template, "{{phase_id}}", phase.id.as_str());
    let b = replace_all(a.as_str(), "{{name}}", phase.name.as_str());
    replace_all(b.as_str(), "{{objective}}", phase.objective.as_str())
}

/// A coverage gap between recorded source-delta rows and completed phases.
#[derive(Debug, Clone, PartialEq, Eq)]
pub enum CompletenessGap {
    /// A completed phase with no recorded row.
    Missing { phase: String },
    /// A recorded row whose phase is not completed.
    Extra { phase: String },
    /// More than one recorded row for a phase.
    Duplicate { phase: String },
}

/// The one-line description of a gap, naming its phase.
pub open spec fn describe_spec(g: CompletenessGap) -> Seq<char> {
    match g {
        CompletenessGap::Missing { phase } => "completed phase "@ + phase@ + " has no recorded source-delta row"@,
        CompletenessGap::Extra { phase } => "recorded row for "@ + phase@ + ", which is not a completed phase"@,
        CompletenessGap::Duplicate { phase } => "recorded more than one row for phase "@ + phase@,
    }
}

impl CompletenessGap {
    /// One line naming the phase and what is wrong with it.
    pub fn describe(&self) -> (s: String)
        ensures
            s@ == describe_spec(*self),
    {
        match self {
            CompletenessGap::Missing { phase } => {
                let mut s = String::from_str("completed phase ");
                s.append(phase.as_str());
                s.append(" has no recorded source-delta row");
                s
            },
            CompletenessGap::Extra { phase } => {
                let mut s = String::from_str("recorded row for ");
                s.append(phase.as_str());
                s.append(", which is not a completed phase");
                s
            },
            CompletenessGap::Duplicate { phase } => {
                let mut s = String::from_str("recorded more than one row for phase ");
                s.append(phase.as_str());
                s
            },
        }
    }
}

/// A gap by its kind and phase.
pub enum GapModel {
    Missing(Seq<char>),
    Extra(Seq<char>),
    Duplicate(Seq<char>),
}

/// The model of a gap.
pub open spec fn gap_model(g: CompletenessGap) -> GapModel {
    match g {
        CompletenessGap::Missing { phase } => GapModel::Missing(phase@),
        CompletenessGap::Extra { phase } => GapModel::Extra(phase@),
        CompletenessGap::Duplicate { phase } => GapModel::Duplicate(phase@),
    }
}

/// How many times `k` occurs in `s`.
pub open spec fn count_of(s: Seq<Seq<char>>, k: Seq<char>) -> nat
    decreases s.len(),
{
    if s.len() == 0 {
        0
    } else {
        count_of(s.drop_last(), k) + if s.last() == k { 1nat } else { 0nat }
    }
}

/// A completed phase with no recorded row is missing, in completed order.
pub open spec fn missing_gaps(completed: Seq<Seq<char>>, recorded: Seq<Seq<char>>) -> Seq<GapModel>
    decreases completed.len(),
{
    if completed.len() == 0 {
        Seq::empty()
    } else {
        missing_gaps(completed.drop_last(), recorded) + if recorded.contains(completed.last()) {
            Seq::empty()
        } else {
            seq![GapModel::Missing(completed.last())]
        }
    }
}

/// An extra row for each recorded phase, in order, that is not completed.
pub open spec fn extras_of(phases: Seq<Seq<char>>, completed: Seq<Seq<char>>) -> Seq<GapModel>
    decreases phases.len(),
{
    if phases.len() == 0 {
        Seq::empty()
    } else {
        let p = phases.last();
        extras_of(phases.drop_last(), completed) + if !completed.contains(p) {
            seq![GapModel::Extra(p)]
        } else {
            Seq::empty()
        }
    }
}

/// A duplicate for each recorded phase, in order, that is completed and was
/// recorded more than once.
pub open spec fn duplicates_of(phases: Seq<Seq<char>>, completed: Seq<Seq<char>>, recorded: Seq<Seq<char>>) -> Seq<GapModel>
    decreases phases.len(),
{
    if phases.len() == 0 {
        Seq::empty()
    } else {
        let p = phases.last();
        duplicates_of(phases.drop_last(), completed, recorded) + if completed.contains(p) && count_of(recorded, p) > 1 {
            seq![GapModel::Duplicate(p)]
        } else {
            Seq::empty()
        }
    }
}

/// The gaps after the missing ones: every extra row, then every duplicate,
/// each group in the order of `phases`.
pub open spec fn extra_gaps(phases: Seq<Seq<char>>, completed: Seq<Seq<char>>, recorded: Seq<Seq<char>>) -> Seq<GapModel> {
    extras_of(phases, completed) + duplicates_of(phases, completed, recorded)
}

/// `phases` holds each recorded phase once, in ascending order.
pub open spec fn sorted_distinct(phases: Seq<Seq<char>>, recorded: Seq<Seq<char>>) -> bool {
    &&& forall|i: int, j: int| 0 <= i < j < phases.len() ==> lex_lt(#[trigger] phases[i], #[trigger] phases[j])
    &&& forall|k: Seq<char>| phases.contains(k) <==> recorded.contains(k)
}

/// Whether the recorded rows cover the completed phases.
#[derive(Debug, Clone, PartialEq, Eq)]
pub enum Completeness {
    Complete,
    Incomplete { gaps: Vec<CompletenessGap> },
}

/// A recorded phase occurs when it is counted.
proof fn lemma_count_zero(s: Seq<Seq<char>>, k: Seq<char>)
    ensures
        (count_of(s, k) == 0) == !s.contains(k),
    decreases s.len(),
{
    if s.len() > 0 {
        let d = s.drop_last();
        lemma_count_zero(d, k);
        if d.contains(k) {
            let i = choose|i: int| 0 <= i < d.len() && d[i] == k;
            assert(s[i] == k);
        }
        if s.contains(k) && s.last() != k {
            let i = choose|i: int| 0 <= i < s.len() && s[i] == k;
            assert(d[i] == k);
        }
        if s.last() == k {
            assert(s[s.len() - 1] == k);
        }
    }
}

/// The tally so far: each phase recorded in `done` maps to its count, capped at two.
spec fn tallied(counts: Seq<(Seq<char>, u8)>, done: Seq<Seq<char>>) -> bool {
    forall|k: Seq<char>| #[trigger] lookup(counts, k) == (if count_of(done, k) == 0 {
        None::<u8>
    } else if count_of(done, k) == 1 {
        Some(1u8)
    } else {
        Some(2u8)
    })
}

/// Cross-check recorded rows against completed phases: every completed phase
/// needs exactly one row, and every row's phase must be completed. The gaps
/// come in a stable order: every missing phase (in completed order), then
/// every extra row, then every duplicate (each by ascending phase).
pub fn check_completeness(completed: &SortedSet, recorded: &Vec<String>) -> (r: Completeness)
    requires
        completed.wf(),
    ensures
        exists|phases: Seq<Seq<char>>| #[trigger] sorted_distinct(phases, views(recorded@)) && {
            let gaps = missing_gaps(completed@, views(recorded@)) + extra_gaps(phases, completed@, views(recorded@));
            if gaps.len() == 0 {
                r == Completeness::Complete
            } else {
                r matches Completeness::Incomplete { gaps: g } && g@.map_values(|x: CompletenessGap| gap_model(x)) == gaps
            }
        },
{
    let ghost rec = views(recorded@);
    let mut counts: SortedMap<u8> = SortedMap::new();
    let mut i: usize = 0;
    while i < recorded.len()
        invariant
            i <= recorded@.len(),
            rec == views(recorded@),
            counts.wf(),
            tallied(counts.view(), rec.take(i as int)),
        decreases recorded.len() - i,
    {
        let k = &recorded[i];
        let next: u8 = match counts.get(k.as_str()) {
            None => 1,
            Some(c) => if *c >= 2 { 2 } else { *c + 1 },
        };
        let ghost before = counts.view();
        let ghost done = rec.take(i as int);
        let ghost done2 = rec.take(i + 1);
        proof {
            assert(done2.drop_last() =~= done);
            assert(done2.last() == k@);
            let c0 = count_of(done, k@);
            assert(lookup(before, k@) == (if c0 == 0 { None::<u8> } else if c0 == 1 { Some(1u8) } else { Some(2u8) }));
        }
        counts.insert(k.clone(), next);
        proof {
            assert forall|k2: Seq<char>| #[trigger] lookup(counts.view(), k2) == (if count_of(done2, k2) == 0 {
                None::<u8>
            } else if count_of(done2, k2) == 1 {
                Some(1u8)
            } else {
                Some(2u8)
            }) by {
                lemma_insert_then_lookup(before, k@, next, k2);
                assert(lookup(before, k2) == (if count_of(done, k2) == 0 { None::<u8> } else if count_of(done, k2) == 1 { Some(1u8) } else { Some(2u8) }));
            }
        }
        i = i + 1;
    }
    assert(rec.take(recorded@.len() as int) =~= rec);
    let ghost cnt = counts.view();
    let ghost f = |x: CompletenessGap| gap_model(x);
    let mut gaps: Vec<CompletenessGap> = Vec::new();
    let mut j: usize = 0;
    while j < completed.len()
        invariant
            j <= completed@.len(),
            rec == views(recorded@),
            cnt == counts.view(),
            tallied(cnt, rec),
            f == (|x: CompletenessGap| gap_model(x)),
            gaps@.map_values(f) == missing_gaps(completed@.take(j as int), rec),
        decreases completed@.len() - j,
    {
        let p = completed.at(j);
        let ghost pre = completed@.take(j as int);
        assert(completed@.take(j + 1).drop_last() =~= pre);
        proof {
            lemma_count_zero(rec, p@);
            assert(lookup(cnt, p@) == (if count_of(rec, p@) == 0 { None::<u8> } else if count_of(rec, p@) == 1 { Some(1u8) } else { Some(2u8) }));
        }
        if counts.get(p.as_str()).is_none() {
            let ghost g0 = gaps@;
            gaps.push(CompletenessGap::Missing { phase: p.clone() });
            assert(gaps@.map_values(f) =~= g0.map_values(f).push(GapModel::Missing(p@)));
        }
        j = j + 1;
        assert(gaps@.map_values(f) =~= missing_gaps(completed@.take(j as int), rec));
    }
    assert(completed@.take(completed@.len() as int) =~= completed@);
    let ghost missing = gaps@.map_values(f);
    let ghost phases = keys_of(cnt);
    let mut m: usize = 0;
    while m < counts.len()
        invariant
            m <= cnt.len(),
            rec == views(recorded@),
            cnt == counts.view(),
            counts.wf(),
            tallied(cnt, rec),
            phases == keys_of(cnt),
            f == (|x: CompletenessGap| gap_model(x)),
            gaps@.map_values(f) == missing + extras_of(phases.take(m as int), completed@),
        decreases cnt.len() - m,
    {
        let p = counts.key_at(m);
        proof {
            lemma_lookup_unique(cnt, m as int);
            assert(phases[m as int] == p@);
            assert(phases.take(m + 1).drop_last() =~= phases.take(m as int));
        }
        let ghost g0 = gaps@;
        if !completed.contains(p.as_str()) {
            gaps.push(CompletenessGap::Extra { phase: p.clone() });
            assert(gaps@.map_values(f) =~= g0.map_values(f).push(GapModel::Extra(p@)));
        }
        m = m + 1;
        assert(gaps@.map_values(f) =~= missing + extras_of(phases.take(m as int), completed@));
    }
    assert(phases.take(cnt.len() as int) =~= phases);
    let ghost with_extras = gaps@.map_values(f);
    let mut m: usize = 0;
    while m < counts.len()
        invariant
            m <= cnt.len(),
            rec == views(recorded@),
            cnt == counts.view(),
            counts.wf(),
            tallied(cnt, rec),
            phases == keys_of(cnt),
            f == (|x: CompletenessGap| gap_model(x)),
            gaps@.map_values(f) == with_extras + duplicates_of(phases.take(m as int), completed@, rec),
        decreases cnt.len() - m,
    {
        let p = counts.key_at(m);
        let c = *counts.value_at(m);
        proof {
            lemma_lookup_unique(cnt, m as int);
            assert(phases[m as int] == p@);
            assert(phases.take(m + 1).drop_last() =~= phases.take(m as int));
            assert(lookup(cnt, p@) == (if count_of(rec, p@) == 0 { None::<u8> } else if count_of(rec, p@) == 1 { Some(1u8) } else { Some(2u8) }));
        }
        let ghost g0 = gaps@;
        if completed.contains(p.as_str()) && c > 1 {
            gaps.push(CompletenessGap::Duplicate { phase: p.clone() });
            assert(gaps@.map_values(f) =~= g0.map_values(f).push(GapModel::Duplicate(p@)));
        }
        m = m + 1;
        assert(gaps@.map_values(f) =~= with_extras + duplicates_of(phases.take(m as int), completed@, rec));
    }
    assert(phases.take(cnt.len() as int) =~= phases);
    proof {
        assert forall|i: int, j: int| 0 <= i < j < phases.len() implies lex_lt(#[trigger] phases[i], #[trigger] phases[j]) by {
            assert(phases[i] == cnt[i].0 && phases[j] == cnt[j].0);
        }
        assert forall|k: Seq<char>| phases.contains(k) <==> rec.contains(k) by {
            lemma_count_zero(rec, k);
            lemma_lookup(cnt, k);
            assert(lookup(cnt, k) == (if count_of(rec, k) == 0 { None::<u8> } else if count_of(rec, k) == 1 { Some(1u8) } else { Some(2u8) }));
            if phases.contains(k) {
                let i = choose|i: int| 0 <= i < phases.len() && phases[i] == k;
                assert(cnt[i].0 == k);
            }
            if rec.contains(k) {
                let i = choose|i: int| 0 <= i < cnt.len() && #[trigger] cnt[i].0 == k && cnt[i].1 == lookup(cnt, k).unwrap()
                    && forall|j: int| 0 <= j < i ==> cnt[j].0 != k;
                assert(phases[i] == k);
            }
        }
        assert(sorted_distinct(phases, rec));
    }
    if gaps.len() == 0 {
        Completeness::Complete
    } else {
        Completeness::Incomplete { gaps }
    }
}

/// Every completed phase has exactly one recorded row, and every recorded
/// row's phase is completed.
pub open spec fn exact_cover(completed: Seq<Seq<char>>, recorded: Seq<Seq<char>>) -> bool {
    &&& forall|c: Seq<char>| completed.contains(c) ==> #[trigger] count_of(recorded, c) == 1
    &&& forall|r: Seq<char>| #[trigger] recorded.contains(r) ==> completed.contains(r)
}

/// No completed phase is missing exactly when each is recorded.
proof fn lemma_missing_empty(completed: Seq<Seq<char>>, recorded: Seq<Seq<char>>)
    ensures
        (missing_gaps(completed, recorded).len() == 0)
            == (forall|i: int| 0 <= i < completed.len() ==> recorded.contains(#[trigger] completed[i])),
    decreases completed.len(),
{
    if completed.len() > 0 {
        let d = completed.drop_last();
        lemma_missing_empty(d, recorded);
        assert forall|i: int| 0 <= i < d.len() implies #[trigger] d[i] == completed[i] by {}
        if missing_gaps(completed, recorded).len() == 0 {
            assert forall|i: int| 0 <= i < completed.len() implies recorded.contains(#[trigger] completed[i]) by {
                if i < d.len() {
                    assert(recorded.contains(d[i]));
                }
            }
        }
        if forall|i: int| 0 <= i < completed.len() ==> recorded.contains(#[trigger] completed[i]) {
            assert forall|i: int| 0 <= i < d.len() implies recorded.contains(#[trigger] d[i]) by {
                assert(recorded.contains(completed[i]));
            }
            assert(recorded.contains(completed[completed.len() - 1]));
        }
    }
}

/// No recorded phase is extra exactly when each is completed.
proof fn lemma_extras_empty(phases: Seq<Seq<char>>, completed: Seq<Seq<char>>)
    ensures
        (extras_of(phases, completed).len() == 0) == (forall|i: int| 0 <= i < phases.len()
            ==> completed.contains(#[trigger] phases[i])),
    decreases phases.len(),
{
    if phases.len() > 0 {
        let d = phases.drop_last();
        lemma_extras_empty(d, completed);
        assert forall|i: int| 0 <= i < d.len() implies #[trigger] d[i] == phases[i] by {}
        if extras_of(phases, completed).len() == 0 {
            assert forall|i: int| 0 <= i < phases.len() implies completed.contains(#[trigger] phases[i]) by {
                if i < d.len() {
                    assert(completed.contains(d[i]));
                }
            }
        }
        if forall|i: int| 0 <= i < phases.len() ==> completed.contains(#[trigger] phases[i]) {
            assert forall|i: int| 0 <= i < d.len() implies completed.contains(#[trigger] d[i]) by {
                assert(completed.contains(phases[i]));
            }
            assert(completed.contains(phases[phases.len() - 1]));
        }
    }
}

/// No completed recorded phase is duplicated exactly when each such phase is
/// recorded at most once.
proof fn lemma_duplicates_empty(phases: Seq<Seq<char>>, completed: Seq<Seq<char>>, recorded: Seq<Seq<char>>)
    ensures
        (duplicates_of(phases, completed, recorded).len() == 0) == (forall|i: int| 0 <= i < phases.len()
            ==> completed.contains(#[trigger] phases[i]) ==> count_of(recorded, phases[i]) <= 1),
    decreases phases.len(),
{
    if phases.len() > 0 {
        let d = phases.drop_last();
        lemma_duplicates_empty(d, completed, recorded);
        assert forall|i: int| 0 <= i < d.len() implies #[trigger] d[i] == phases[i] by {}
        if duplicates_of(phases, completed, recorded).len() == 0 {
            assert forall|i: int| 0 <= i < phases.len() implies completed.contains(#[trigger] phases[i])
                ==> count_of(recorded, phases[i]) <= 1 by {
                if i < d.len() {
                    assert(completed.contains(d[i]) ==> count_of(recorded, d[i]) <= 1);
                }
            }
        }
        if forall|i: int| 0 <= i < phases.len() ==> completed.contains(#[trigger] phases[i])
            ==> count_of(recorded, phases[i]) <= 1 {
            assert forall|i: int| 0 <= i < d.len() implies completed.contains(#[trigger] d[i])
                ==> count_of(recorded, d[i]) <= 1 by {
                assert(completed.contains(phases[i]) ==> count_of(recorded, phases[i]) <= 1);
            }
            assert(completed.contains(phases[phases.len() - 1]) ==> count_of(recorded, phases[phases.len() - 1]) <= 1);
        }
    }
}

/// No recorded phase is extra or duplicated exactly when each is completed
/// and recorded at most once.
proof fn lemma_extra_empty(phases: Seq<Seq<char>>, completed: Seq<Seq<char>>, recorded: Seq<Seq<char>>)
    ensures
        (extra_gaps(phases, completed, recorded).len() == 0) == (forall|i: int| 0 <= i < phases.len()
            ==> completed.contains(#[trigger] phases[i]) && count_of(recorded, phases[i]) <= 1),
{
    lemma_extras_empty(phases, completed);
    lemma_duplicates_empty(phases, completed, recorded);
}

/// The cross-check finds no gap exactly when the recorded rows cover the
/// completed phases one for one: partial coverage never reads as complete.
pub proof fn lemma_complete_iff_exact_cover(completed: Seq<Seq<char>>, recorded: Seq<Seq<char>>, phases: Seq<Seq<char>>)
    requires
        sorted_distinct(phases, recorded),
    ensures
        (missing_gaps(completed, recorded) + extra_gaps(phases, completed, recorded)).len() == 0
            <==> exact_cover(completed, recorded),
{
    lemma_missing_empty(completed, recorded);
    lemma_extra_empty(phases, completed, recorded);
    let gaps = missing_gaps(completed, recorded) + extra_gaps(phases, completed, recorded);
    if gaps.len() == 0 {
        assert forall|c: Seq<char>| completed.contains(c) implies #[trigger] count_of(recorded, c) == 1 by {
            let i = choose|i: int| 0 <= i < completed.len() && completed[i] == c;
            assert(recorded.contains(completed[i]));
            assert(phases.contains(c));
            let j = choose|j: int| 0 <= j < phases.len() && phases[j] == c;
            assert(count_of(recorded, phases[j]) <= 1);
            lemma_count_zero(recorded, c);
        }
        assert forall|r: Seq<char>| #[trigger] recorded.contains(r) implies completed.contains(r) by {
            assert(phases.contains(r));
            let j = choose|j: int| 0 <= j < phases.len() && phases[j] == r;
            assert(completed.contains(phases[j]));
        }
    }
    if exact_cover(completed, recorded) {
        assert forall|i: int| 0 <= i < completed.len() implies recorded.contains(#[trigger] completed[i]) by {
            let c = completed[i];
            assert(completed.contains(c));
            assert(count_of(recorded, c) == 1);
            lemma_count_zero(recorded, c);
        }
        assert forall|i: int| 0 <= i < phases.len() implies completed.contains(#[trigger] phases[i])
            && count_of(recorded, phases[i]) <= 1 by {
            let p = phases[i];
            assert(phases.contains(p));
            assert(recorded.contains(p));
            assert(completed.contains(p));
        }
    }
}

/// The recorded phases have one ascending listing, so the cross-check's
/// verdict is determined by its inputs.
pub proof fn lemma_sorted_distinct_unique(p: Seq<Seq<char>>, q: Seq<Seq<char>>, recorded: Seq<Seq<char>>)
    requires
        sorted_distinct(p, recorded),
        sorted_distinct(q, recorded),
    ensures
        p == q,
{
    assert(p.to_set() =~= q.to_set()) by {
        assert forall|x: Seq<char>| p.to_set().contains(x) <==> q.to_set().contains(x) by {
            assert(p.to_set().contains(x) <==> p.contains(x));
            assert(q.to_set().contains(x) <==> q.contains(x));
        }
    }
    crate::sorted::lemma_ascending_unique(p, q);
}

} // verus!
