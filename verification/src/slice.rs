//! Slice presentation and reference rules: the status vocabulary, the list
//! hide-set, the drift and divergence markers, the phase-rollup cell, the
//! status-transition output line, and `SL-NNN` references.

use vstd::prelude::*;
use crate::lifecycle::{Transition, classify, classify_spec, permitted};
use crate::state::{PhaseRollup, rollup_total, rollup_anomalies};
use crate::listing::{canonical_id_spec};
use crate::text::{zero_padded, str_eq, decimal, decimal_string, chars_of, parse_u32_from,
    parse_u32_spec, replace_all, replace_all_spec, zero_padded_string, join_path, join_path_spec,
    copy_strings, views, lex_lt};
use crate::tomlfmt::{toml_string, toml_string_literal};
use crate::entity::{Artifact, ScaffoldCtx, artifact_model};
use crate::listing::{Meta, FilterFields};
use crate::sorted::SortedSet;

verus! {

/// The slice status vocabulary, in lifecycle order.
pub const SLICE_STATUSES: [&'static str; 9] = [
    "proposed",
    "design",
    "plan",
    "ready",
    "started",
    "audit",
    "reconcile",
    "done",
    "abandoned",
];

/// The statuses a slice list hides unless asked for: `done` and `abandoned`.
pub const SLICE_HIDDEN: [&'static str; 2] = ["done", "abandoned"];

/// Whether `s` is one of the nine slice statuses.
pub open spec fn in_slice_vocab(s: Seq<char>) -> bool {
    s == "proposed"@ || s == "design"@ || s == "plan"@ || s == "ready"@ || s == "started"@
        || s == "audit"@ || s == "reconcile"@ || s == "done"@ || s == "abandoned"@
}

/// The statuses hidden from the default list: `done` and `abandoned`.
pub open spec fn hidden_spec(s: Seq<char>) -> bool {
    s == "done"@ || s == "abandoned"@
}

/// The statuses that mean the work is finished, for divergence: `done` only.
pub open spec fn terminal_status_spec(s: Seq<char>) -> bool {
    s == "done"@
}

/// Whether a listed slice in status `status` is hidden by default (`done`,
/// `abandoned`); any explicit filter reveals it.
pub fn is_hidden(status: &str) -> (r: bool)
    ensures
        r == hidden_spec(status@),
{
    str_eq(status, "done") || str_eq(status, "abandoned")
}

/// Whether an authored status lies outside the slice vocabulary (drift).
pub fn is_drifted(status: &str) -> (r: bool)
    ensures
        r == !in_slice_vocab(status@),
{
    !(str_eq(status, "proposed") || str_eq(status, "design") || str_eq(status, "plan")
        || str_eq(status, "ready") || str_eq(status, "started") || str_eq(status, "audit")
        || str_eq(status, "reconcile") || str_eq(status, "done") || str_eq(status, "abandoned"))
}

/// Whether an authored status marks the work as finished (`done`).
pub fn is_terminal_status(authored: &str) -> (r: bool)
    ensures
        r == terminal_status_spec(authored@),
{
    str_eq(authored, "done")
}

/// The slice lifecycle status, as the `slice status` verb takes it.
#[derive(Debug, Clone, Copy, PartialEq, Eq, Structural)]
pub enum SliceStatus {
    Proposed,
    Design,
    Plan,
    Ready,
    Started,
    Audit,
    Reconcile,
    Done,
    Abandoned,
}

/// The stored spelling of a slice status.
pub open spec fn slice_status_text(s: SliceStatus) -> Seq<char> {
    match s {
        SliceStatus::Proposed => "proposed"@,
        SliceStatus::Design => "design"@,
        SliceStatus::Plan => "plan"@,
        SliceStatus::Ready => "ready"@,
        SliceStatus::Started => "started"@,
        SliceStatus::Audit => "audit"@,
        SliceStatus::Reconcile => "reconcile"@,
        SliceStatus::Done => "done"@,
        SliceStatus::Abandoned => "abandoned"@,
    }
}

impl SliceStatus {
    /// The stored spelling of this status.
    pub fn as_str(self) -> (s: &'static str)
        ensures
            s@ == slice_status_text(self),
    {
        match self {
            SliceStatus::Proposed => "proposed",
            SliceStatus::Design => "design",
            SliceStatus::Plan => "plan",
            SliceStatus::Ready => "ready",
            SliceStatus::Started => "started",
            SliceStatus::Audit => "audit",
            SliceStatus::Reconcile => "reconcile",
            SliceStatus::Done => "done",
            SliceStatus::Abandoned => "abandoned",
        }
    }
}

/// Whether the authored status and the phase rollup disagree: marked finished
/// with work outstanding, or all work complete but not marked finished.
/// Untracked (`None`) and anomalous rollups never diverge.
pub open spec fn divergent_spec(authored: Seq<char>, rollup: Option<PhaseRollup>) -> bool {
    match rollup {
        None => false,
        Some(r) => {
            rollup_anomalies(r) == 0 && (
                (terminal_status_spec(authored) && r.completed < rollup_total(r))
                || (!terminal_status_spec(authored) && rollup_total(r) > 0
                    && r.completed == rollup_total(r)))
        },
    }
}

/// A rollup whose total fits the counters.
pub open spec fn rollup_fits(rollup: Option<PhaseRollup>) -> bool {
    match rollup {
        None => true,
        Some(r) => rollup_total(r) <= u32::MAX,
    }
}

/// Whether the authored status and the derived phase rollup disagree.
pub fn is_divergent(authored: &str, rollup: Option<&PhaseRollup>) -> (d: bool)
    requires
        rollup_fits(match rollup { Some(r) => Some(*r), None => None }),
    ensures
        d == divergent_spec(authored@, match rollup { Some(r) => Some(*r), None => None }),
{
    match rollup {
        None => false,
        Some(r) => {
            if r.anomalies() > 0 {
                return false;
            }
            let terminal = is_terminal_status(authored);
            let total = r.total();
            (terminal && r.completed < total) || (!terminal && total > 0 && r.completed == total)
        },
    }
}

/// The `phases` cell: `completed/total`, then ` !N` when N phases are blocked
/// and ` ?N` when N are anomalous; `—` when untracked.
pub open spec fn phases_cell_spec(rollup: Option<PhaseRollup>) -> Seq<char> {
    match rollup {
        None => "—"@,
        Some(r) => decimal(r.completed as nat) + "/"@ + decimal(rollup_total(r) as nat)
            + (if r.blocked > 0 { " !"@ + decimal(r.blocked as nat) } else { Seq::empty() })
            + (if rollup_anomalies(r) > 0 { " ?"@ + decimal(rollup_anomalies(r) as nat) } else { Seq::empty() }),
    }
}

/// Render the `phases` cell of a slice row.
pub fn phases_cell(rollup: Option<&PhaseRollup>) -> (s: String)
    requires
        rollup_fits(match rollup { Some(r) => Some(*r), None => None }),
    ensures
        s@ == phases_cell_spec(match rollup { Some(r) => Some(*r), None => None }),
{
    match rollup {
        None => String::from_str("—"),
        Some(r) => {
            let mut s = decimal_string(r.completed as u64);
            s.append("/");
            let t = decimal_string(r.total() as u64);
            s.append(t.as_str());
            if r.blocked > 0 {
                s.append(" !");
                let b = decimal_string(r.blocked as u64);
                s.append(b.as_str());
            }
            let a = r.anomalies();
            if a > 0 {
                s.append(" ?");
                let n = decimal_string(a as u64);
                s.append(n.as_str());
            }
            s
        },
    }
}

/// The decorated status cell: the status, then `?` when out of vocabulary,
/// then ` ⚠` when divergent from its phase rollup.
pub open spec fn decorated_status_spec(status: Seq<char>, rollup: Option<PhaseRollup>) -> Seq<char> {
    status + (if !in_slice_vocab(status) { "?"@ } else { Seq::empty() })
        + (if divergent_spec(status, rollup) { " ⚠"@ } else { Seq::empty() })
}

/// Render the decorated status cell.
pub fn decorated_status(status: &str, rollup: Option<&PhaseRollup>) -> (s: String)
    requires
        rollup_fits(match rollup { Some(r) => Some(*r), None => None }),
    ensures
        s@ == decorated_status_spec(status@, match rollup { Some(r) => Some(*r), None => None }),
{
    let mut s = String::from_str(status);
    if is_drifted(status) {
        s.append("?");
    }
    if is_divergent(status, rollup) {
        s.append(" ⚠");
    }
    s
}

/// The label of a transition in the verb's output line.
pub open spec fn transition_label_spec(kind: Transition) -> Seq<char> {
    match kind {
        Transition::Advance => "advance"@,
        Transition::BackEdge => "back-edge"@,
        Transition::Skip => "skip"@,
        Transition::Abandon => "abandon"@,
        Transition::Noop => "no-op"@,
        Transition::FromTerminal => "from-terminal"@,
        Transition::SeamBreach => "seam-breach"@,
    }
}

/// The lower-case label for a transition.
pub fn transition_label(kind: Transition) -> (s: &'static str)
    ensures
        s@ == transition_label_spec(kind),
{
    match kind {
        Transition::Advance => "advance",
        Transition::BackEdge => "back-edge",
        Transition::Skip => "skip",
        Transition::Abandon => "abandon",
        Transition::Noop => "no-op",
        Transition::FromTerminal => "from-terminal",
        Transition::SeamBreach => "seam-breach",
    }
}

/// `{from} → {to} [{classification}] [{posture}]`, then ` — {note}` when a
/// note is given.
pub open spec fn status_line_spec(
    from: Seq<char>,
    to: Seq<char>,
    kind: Transition,
    posture: Seq<char>,
    note: Option<Seq<char>>,
) -> Seq<char> {
    from + " → "@ + to + " ["@ + transition_label_spec(kind) + "] ["@ + posture + "]"@
        + match note {
        Some(n) => " — "@ + n,
        None => Seq::empty(),
    }
}

/// The `slice status` output line; `posture` is the source state's exit
/// conduct label (e.g. `self/gate`).
pub fn status_line(from: &str, to: &str, kind: Transition, posture: &str, note: Option<&str>) -> (s: String)
    ensures
        s@ == status_line_spec(from@, to@, kind, posture@, match note { Some(n) => Some(n@), None => None }),
{
    let mut s = String::from_str(from);
    s.append(" → ");
    s.append(to);
    s.append(" [");
    s.append(transition_label(kind));
    s.append("] [");
    s.append(posture);
    s.append("]");
    match note {
        Some(n) => {
            s.append(" — ");
            s.append(n);
        },
        None => {},
    }
    s
}

/// The `SL-NNN` canonical id of a slice.
pub fn canonical_id(id: u32) -> (s: String)
    ensures
        s@ == canonical_id_spec("SL"@, id as nat),
{
    crate::listing::canonical_id("SL", id)
}

/// Whether `r` starts with `SL-` in any letter case.
pub open spec fn has_slice_prefix(r: Seq<char>) -> bool {
    r.len() >= 3 && (r[0] == 'S' || r[0] == 's') && (r[1] == 'L' || r[1] == 'l') && r[2] == '-'
}

/// The digits part of a slice reference: the text after an `SL-` prefix in
/// any letter case, or the whole reference.
pub open spec fn slice_ref_digits(r: Seq<char>) -> Seq<char> {
    if has_slice_prefix(r) {
        r.skip(3)
    } else {
        r
    }
}

/// The refusal for a text that is not a slice reference.
pub open spec fn slice_ref_error(r: Seq<char>) -> Seq<char> {
    "not a slice reference: `"@ + r + "` (expected `SL-025` or `25`)"@
}

/// The id a slice reference names: `SL-025`, `sl-25`, `Sl-25` or a bare `25`
/// (the prefix is optional and its case does not matter; the id may be
/// padded); anything else is refused with a message naming the reference.
pub open spec fn parse_ref_spec(r: Seq<char>) -> Result<u32, Seq<char>> {
    match parse_u32_spec(slice_ref_digits(r)) {
        Some(n) => Ok(n),
        None => Err(slice_ref_error(r)),
    }
}

/// Parse a slice reference to its numeric id.
pub fn parse_ref(reference: &str) -> (r: Result<u32, String>)
    ensures
        match r {
            Ok(n) => parse_ref_spec(reference@) == Ok::<u32, Seq<char>>(n),
            Err(e) => parse_ref_spec(reference@) == Err::<u32, Seq<char>>(e@),
        },
{
    let cs = chars_of(reference);
    let prefixed = cs.len() >= 3 && (cs[0] == 'S' || cs[0] == 's') && (cs[1] == 'L' || cs[1] == 'l') && cs[2] == '-';
    let start: usize = if prefixed { 3 } else { 0 };
    proof {
        assert(cs@.skip(0) =~= cs@);
        assert(cs@.skip(start as int) =~= slice_ref_digits(reference@));
    }
    match parse_u32_from(&cs, start) {
        Some(n) => Ok(n),
        None => {
            let mut e = String::from_str("not a slice reference: `");
            e.append(reference);
            e.append("` (expected `SL-025` or `25`)");
            Err(e)
        },
    }
}

/// A slice's canonical id parses back to the id: `parse_ref(canonical_id(n)) == n`.
pub proof fn lemma_parse_ref_round_trip(id: u32)
    ensures
        parse_ref_spec(canonical_id_spec("SL"@, id as nat)) == Ok::<u32, Seq<char>>(id),
{
    reveal_strlit("SL");
    reveal_strlit("-");
    reveal_strlit("SL-");
    let c = canonical_id_spec("SL"@, id as nat);
    let z = zero_padded(id as nat, 3);
    crate::text::lemma_zero_padded(id as nat, 3);
    assert(c.take(3) =~= "SL-"@);
    assert(c.skip(3) =~= z);
    crate::text::lemma_parse_digits(z);
}

/// The authored slice tree, relative to the project root.
pub const SLICE_DIR: &'static str = ".doctrine/slice";

/// The refusal of a lifecycle move that may not be written, or the move's
/// classification when it may.
pub open spec fn transition_gate_spec(id: nat, from: Seq<char>, to: Seq<char>) -> Result<Transition, Seq<char>> {
    let name = zero_padded(id, 3);
    match classify_spec(from, to) {
        Transition::FromTerminal => Err("slice "@ + name + ": refusing to leave terminal status `"@ + from
            + "` (reopening is deferred)"@),
        Transition::SeamBreach => Err("slice "@ + name + ": `"@ + to
            + "` is reachable only across the closure seam (→ reconcile from audit, → done from reconcile), not from `"@
            + from + "`"@),
        t => Ok(t),
    }
}

/// Gate a slice's lifecycle move before anything is written: leaving a
/// terminal status and breaching the closure seam are refused with a message
/// naming the slice; every other move passes with its classification.
pub fn gate_slice_transition(id: u32, from: &str, to: &str) -> (r: Result<Transition, String>)
    ensures
        match transition_gate_spec(id as nat, from@, to@) {
            Ok(t) => r == Ok::<Transition, String>(t),
            Err(m) => r matches Err(e) && e@ == m,
        },
        r is Ok <==> permitted(classify_spec(from@, to@)),
{
    let name = zero_padded_string(id as u64, 3);
    match classify(from, to) {
        Transition::FromTerminal => {
            let mut m = String::from_str("slice ");
            m.append(name.as_str());
            m.append(": refusing to leave terminal status `");
            m.append(from);
            m.append("` (reopening is deferred)");
            Err(m)
        },
        Transition::SeamBreach => {
            let mut m = String::from_str("slice ");
            m.append(name.as_str());
            m.append(": `");
            m.append(to);
            m.append("` is reachable only across the closure seam (→ reconcile from audit, → done from reconcile), not from `");
            m.append(from);
            m.append("`");
            Err(m)
        },
        t => Ok(t),
    }
}

/// `<root>/<NNN>/slice-<NNN>.toml`.
pub open spec fn slice_toml_path_spec(slice_root: Seq<char>, id: nat) -> Seq<char> {
    join_path_spec(join_path_spec(slice_root, zero_padded(id, 3)), "slice-"@ + zero_padded(id, 3) + ".toml"@)
}

/// The metadata file of a slice under the slice tree.
pub fn slice_toml_path(slice_root: &str, id: u32) -> (p: String)
    ensures
        p@ == slice_toml_path_spec(slice_root@, id as nat),
{
    let name = zero_padded_string(id as u64, 3);
    let dir = join_path(slice_root, name.as_str());
    let mut file = String::from_str("slice-");
    file.append(name.as_str());
    file.append(".toml");
    join_path(dir.as_str(), file.as_str())
}

/// `slice-<id>.toml`: the template with `{{id}}`, `{{slug}}` and `{{title}}`
/// (both as TOML string literals) and `{{date}}` filled in that order.
pub open spec fn render_toml_spec(template: Seq<char>, id: nat, slug: Seq<char>, title: Seq<char>, date: Seq<char>) -> Seq<char> {
    replace_all_spec(
        replace_all_spec(
            replace_all_spec(replace_all_spec(template, "{{id}}"@, decimal(id)), "{{slug}}"@, toml_string_literal(slug)),
            "{{title}}"@, toml_string_literal(title)),
        "{{date}}"@, date)
}

/// Render a slice's metadata file from its template.
pub fn render_toml(template: &str, id: u32, slug: &str, title: &str, date: &str) -> (s: String)
    ensures
        s@ == render_toml_spec(template@, id as nat, slug@, title@, date@),
{
    proof {
        reveal_strlit("{{id}}");
        reveal_strlit("{{slug}}");
        reveal_strlit("{{title}}");
        reveal_strlit("{{date}}");
    }
    let n = decimal_string(id as u64);
    let a = replace_all(template, "{{id}}", n.as_str());
    let sl = toml_string(slug);
    let b = replace_all(a.as_str(), "{{slug}}", sl.as_str());
    let tl = toml_string(title);
    let c = replace_all(b.as_str(), "{{title}}", tl.as_str());
    replace_all(c.as_str(), "{{date}}", date)
}

/// `slice-<id>.md`: the template with `{{title}}` filled.
pub fn render_md(template: &str, title: &str) -> (s: String)
    ensures
        s@ == replace_all_spec(template@, "{{title}}"@, title@),
{
    proof {
        reveal_strlit("{{title}}");
    }
    replace_all(template, "{{title}}", title)
}

/// A template with `{{ref}}` and then `{{title}}` filled.
pub open spec fn ref_title_spec(template: Seq<char>, canonical: Seq<char>, title: Seq<char>) -> Seq<char> {
    replace_all_spec(replace_all_spec(template, "{{ref}}"@, canonical), "{{title}}"@, title)
}

fn fill_ref_title(template: &str, canonical_id: &str, title: &str) -> (s: String)
    ensures
        s@ == ref_title_spec(template@, canonical_id@, title@),
{
    proof {
        reveal_strlit("{{ref}}");
        reveal_strlit("{{title}}");
    }
    let a = replace_all(template, "{{ref}}", canonical_id);
    replace_all(a.as_str(), "{{title}}", title)
}

/// `design.md`: the parent's canonical id and title filled in.
pub fn render_design(template: &str, canonical_id: &str, title: &str) -> (s: String)
    ensures
        s@ == ref_title_spec(template@, canonical_id@, title@),
{
    fill_ref_title(template, canonical_id, title)
}

/// `plan.toml`: the parent's canonical id filled in.
pub fn render_plan_toml(template: &str, canonical_id: &str) -> (s: String)
    ensures
        s@ == replace_all_spec(template@, "{{ref}}"@, canonical_id@),
{
    proof {
        reveal_strlit("{{ref}}");
    }
    replace_all(template, "{{ref}}", canonical_id)
}

/// `plan.md`: the parent's canonical id and title filled in.
pub fn render_plan_md(template: &str, canonical_id: &str, title: &str) -> (s: String)
    ensures
        s@ == ref_title_spec(template@, canonical_id@, title@),
{
    fill_ref_title(template, canonical_id, title)
}

/// `notes.md`: the parent's canonical id and title filled in.
pub fn render_notes(template: &str, canonical_id: &str, title: &str) -> (s: String)
    ensures
        s@ == ref_title_spec(template@, canonical_id@, title@),
{
    fill_ref_title(template, canonical_id, title)
}

/// `<NNN>/<leaf>`.
pub open spec fn under_id(id: nat, leaf: Seq<char>) -> Seq<char> {
    zero_padded(id, 3) + "/"@ + leaf
}

pub(crate) fn path_under_id(id: u32, leaf: &str) -> (p: String)
    ensures
        p@ == under_id(id as nat, leaf@),
{
    let mut p = zero_padded_string(id as u64, 3);
    p.append("/");
    p.append(leaf);
    p
}

/// The slice fileset: `NNN/slice-NNN.toml`, `NNN/slice-NNN.md`, and the
/// symlink `NNN-<slug>` to `NNN`.
pub fn slice_scaffold(ctx: &ScaffoldCtx, toml_template: &str, md_template: &str) -> (f: Vec<Artifact>)
    ensures
        f@.map_values(|a: Artifact| artifact_model(a)) == seq![
            (true, under_id(ctx.id as nat, "slice-"@ + zero_padded(ctx.id as nat, 3) + ".toml"@),
                render_toml_spec(toml_template@, ctx.id as nat, ctx.slug@, ctx.title@, ctx.date@)),
            (true, under_id(ctx.id as nat, "slice-"@ + zero_padded(ctx.id as nat, 3) + ".md"@),
                replace_all_spec(md_template@, "{{title}}"@, ctx.title@)),
            (false, zero_padded(ctx.id as nat, 3) + "-"@ + ctx.slug@, zero_padded(ctx.id as nat, 3)),
        ],
{
    let name = zero_padded_string(ctx.id as u64, 3);
    let mut toml_leaf = String::from_str("slice-");
    toml_leaf.append(name.as_str());
    toml_leaf.append(".toml");
    let mut md_leaf = String::from_str("slice-");
    md_leaf.append(name.as_str());
    md_leaf.append(".md");
    let mut link = name.clone();
    link.append("-");
    link.append(ctx.slug);
    let f = vec![
        Artifact::File {
            rel_path: path_under_id(ctx.id, toml_leaf.as_str()),
            body: render_toml(toml_template, ctx.id, ctx.slug, ctx.title, ctx.date),
        },
        Artifact::File { rel_path: path_under_id(ctx.id, md_leaf.as_str()), body: render_md(md_template, ctx.title) },
        Artifact::Symlink { rel_path: link, target: name },
    ];
    assert(f@.map_values(|a: Artifact| artifact_model(a)) =~= seq![
        (true, under_id(ctx.id as nat, "slice-"@ + zero_padded(ctx.id as nat, 3) + ".toml"@),
            render_toml_spec(toml_template@, ctx.id as nat, ctx.slug@, ctx.title@, ctx.date@)),
        (true, under_id(ctx.id as nat, "slice-"@ + zero_padded(ctx.id as nat, 3) + ".md"@),
            replace_all_spec(md_template@, "{{title}}"@, ctx.title@)),
        (false, zero_padded(ctx.id as nat, 3) + "-"@ + ctx.slug@, zero_padded(ctx.id as nat, 3)),
    ]);
    f
}

/// The design fileset: one `NNN/design.md`.
pub fn design_scaffold(ctx: &ScaffoldCtx, template: &str) -> (f: Vec<Artifact>)
    ensures
        f@.map_values(|a: Artifact| artifact_model(a)) == seq![
            (true, under_id(ctx.id as nat, "design.md"@), ref_title_spec(template@, ctx.canonical@, ctx.title@)),
        ],
{
    let f = vec![Artifact::File {
        rel_path: path_under_id(ctx.id, "design.md"),
        body: render_design(template, ctx.canonical, ctx.title),
    }];
    assert(f@.map_values(|a: Artifact| artifact_model(a)) =~= seq![
        (true, under_id(ctx.id as nat, "design.md"@), ref_title_spec(template@, ctx.canonical@, ctx.title@)),
    ]);
    f
}

/// The plan fileset: `NNN/plan.toml` and `NNN/plan.md`.
pub fn plan_scaffold(ctx: &ScaffoldCtx, toml_template: &str, md_template: &str) -> (f: Vec<Artifact>)
    ensures
        f@.map_values(|a: Artifact| artifact_model(a)) == seq![
            (true, under_id(ctx.id as nat, "plan.toml"@), replace_all_spec(toml_template@, "{{ref}}"@, ctx.canonical@)),
            (true, under_id(ctx.id as nat, "plan.md"@), ref_title_spec(md_template@, ctx.canonical@, ctx.title@)),
        ],
{
    let f = vec![
        Artifact::File { rel_path: path_under_id(ctx.id, "plan.toml"), body: render_plan_toml(toml_template, ctx.canonical) },
        Artifact::File {
            rel_path: path_under_id(ctx.id, "plan.md"),
            body: render_plan_md(md_template, ctx.canonical, ctx.title),
        },
    ];
    assert(f@.map_values(|a: Artifact| artifact_model(a)) =~= seq![
        (true, under_id(ctx.id as nat, "plan.toml"@), replace_all_spec(toml_template@, "{{ref}}"@, ctx.canonical@)),
        (true, under_id(ctx.id as nat, "plan.md"@), ref_title_spec(md_template@, ctx.canonical@, ctx.title@)),
    ]);
    f
}

/// The notes fileset: one `NNN/notes.md`.
pub fn notes_scaffold(ctx: &ScaffoldCtx, template: &str) -> (f: Vec<Artifact>)
    ensures
        f@.map_values(|a: Artifact| artifact_model(a)) == seq![
            (true, under_id(ctx.id as nat, "notes.md"@), ref_title_spec(template@, ctx.canonical@, ctx.title@)),
        ],
{
    let f = vec![Artifact::File {
        rel_path: path_under_id(ctx.id, "notes.md"),
        body: render_notes(template, ctx.canonical, ctx.title),
    }];
    assert(f@.map_values(|a: Artifact| artifact_model(a)) =~= seq![
        (true, under_id(ctx.id as nat, "notes.md"@), ref_title_spec(template@, ctx.canonical@, ctx.title@)),
    ]);
    f
}

/// How a selector relates to the slice's work.
#[derive(Debug, Clone, Copy, PartialEq, Eq, Structural)]
pub enum SelectorIntent {
    ScopeRelevant,
    DesignTarget,
}

/// The kebab-case wire spelling of a selector intent.
pub fn serde_rename_kebab(intent: SelectorIntent) -> (s: &'static str)
    ensures
        s@ == (match intent {
            SelectorIntent::ScopeRelevant => "scope-relevant"@,
            SelectorIntent::DesignTarget => "design-target"@,
        }),
{
    match intent {
        SelectorIntent::ScopeRelevant => "scope-relevant",
        SelectorIntent::DesignTarget => "design-target",
    }
}

/// One requirement's status move recorded in a reconciliation record.
#[derive(Debug, Clone)]
pub struct StatusDelta {
    pub requirement: String,
    pub from: String,
    pub to: String,
}

/// The reconciliation verdict of a record.
#[derive(Debug, Clone)]
pub struct RecMeta {
    pub rec_move: String,
    pub owning_slice: Option<String>,
    pub decision_ref: Option<String>,
}

/// A reconciliation record.
#[derive(Debug, Clone)]
pub struct RecDoc {
    pub id: u32,
    pub slug: String,
    pub title: String,
    pub rec: RecMeta,
    pub status_delta: Vec<StatusDelta>,
    pub evidence_ref: Vec<String>,
}

/// Whether a record moves requirement `req`.
pub open spec fn names_req(rec: RecDoc, req: Seq<char>) -> bool {
    exists|i: int| 0 <= i < rec.status_delta@.len() && #[trigger] rec.status_delta@[i].requirement@ == req
}

fn rec_names(rec: &RecDoc, req: &str) -> (r: bool)
    ensures
        r == names_req(*rec, req@),
{
    let mut i: usize = 0;
    while i < rec.status_delta.len()
        invariant
            i <= rec.status_delta@.len(),
            forall|k: int| 0 <= k < i ==> #[trigger] rec.status_delta@[k].requirement@ != req@,
        decreases rec.status_delta.len() - i,
    {
        if str_eq(rec.status_delta[i].requirement.as_str(), req) {
            return true;
        }
        i = i + 1;
    }
    false
}

/// The latest owning record that moves `req`: among those naming it, one with
/// the highest id, the last of them on a tie; `None` when none names it.
pub open spec fn latest_owning_rec_spec(recs: Seq<RecDoc>, req: Seq<char>, i: int) -> bool {
    &&& 0 <= i < recs.len()
    &&& names_req(recs[i], req)
    &&& forall|j: int| 0 <= j < recs.len() && names_req(#[trigger] recs[j], req) ==> recs[j].id <= recs[i].id
    &&& forall|j: int| i < j < recs.len() && names_req(#[trigger] recs[j], req) ==> recs[j].id < recs[i].id
}

/// The latest owning record that moves `req`.
pub fn latest_owning_rec_for<'a>(owned_recs: &'a Vec<RecDoc>, req: &str) -> (r: Option<&'a RecDoc>)
    ensures
        match r {
            Some(rec) => exists|i: int| latest_owning_rec_spec(owned_recs@, req@, i) && owned_recs@[i] == *rec,
            None => forall|j: int| 0 <= j < owned_recs@.len() ==> !names_req(#[trigger] owned_recs@[j], req@),
        },
{
    let mut best: Option<usize> = None;
    let mut i: usize = 0;
    while i < owned_recs.len()
        invariant
            i <= owned_recs@.len(),
            match best {
                Some(b) => b < i && names_req(owned_recs@[b as int], req@)
                    && (forall|j: int| 0 <= j < i && names_req(#[trigger] owned_recs@[j], req@) ==> owned_recs@[j].id <= owned_recs@[b as int].id)
                    && (forall|j: int| b < j < i && names_req(#[trigger] owned_recs@[j], req@) ==> owned_recs@[j].id < owned_recs@[b as int].id),
                None => forall|j: int| 0 <= j < i ==> !names_req(#[trigger] owned_recs@[j], req@),
            },
        decreases owned_recs.len() - i,
    {
        if rec_names(&owned_recs[i], req) {
            match best {
                None => {
                    best = Some(i);
                },
                Some(b) => {
                    if owned_recs[i].id >= owned_recs[b].id {
                        best = Some(i);
                    }
                },
            }
        }
        i = i + 1;
    }
    match best {
        Some(b) => {
            assert(latest_owning_rec_spec(owned_recs@, req@, b as int));
            Some(&owned_recs[b])
        },
        None => None,
    }
}

/// Whether `rec` discharges residual drift on `req`: it accepts, its move for
/// `req` lands on the status `req` holds now, and its evidence covers every
/// residual evidence key.
pub open spec fn discharges_spec(latest: Option<RecDoc>, req: Seq<char>, authored: Seq<char>, residual: Seq<Seq<char>>) -> bool {
    match latest {
        None => false,
        Some(rec) => {
            &&& rec.rec.rec_move@ == "accept"@
            &&& exists|i: int| 0 <= i < rec.status_delta@.len() && #[trigger] rec.status_delta@[i].requirement@ == req
                && rec.status_delta@[i].to@ == authored
            &&& forall|k: int| 0 <= k < residual.len() ==> #[trigger] views(rec.evidence_ref@).contains(residual[k])
        },
    }
}

fn contains_str(v: &Vec<String>, x: &str) -> (r: bool)
    ensures
        r == views(v@).contains(x@),
{
    let mut i: usize = 0;
    while i < v.len()
        invariant
            i <= v@.len(),
            forall|k: int| 0 <= k < i ==> #[trigger] v@[k]@ != x@,
        decreases v.len() - i,
    {
        if str_eq(v[i].as_str(), x) {
            assert(views(v@)[i as int] == x@);
            return true;
        }
        i = i + 1;
    }
    proof {
        if views(v@).contains(x@) {
            let k = choose|k: int| 0 <= k < views(v@).len() && views(v@)[k] == x@;
            assert(v@[k]@ == x@);
        }
    }
    false
}

/// The discharge predicate: residual drift on `req` is excused only by an
/// accepting record that affirms `req` at its current `authored` status and
/// whose evidence covers every residual key.
pub fn rec_discharges(latest: Option<&RecDoc>, req: &str, authored: &str, residual_keys: &Vec<String>) -> (r: bool)
    ensures
        r == discharges_spec(match latest { Some(x) => Some(*x), None => None }, req@, authored@, views(residual_keys@)),
{
    let rec = match latest {
        None => {
            return false;
        },
        Some(rec) => rec,
    };
    if !str_eq(rec.rec.rec_move.as_str(), "accept") {
        return false;
    }
    let mut affirmed = false;
    let mut i: usize = 0;
    while i < rec.status_delta.len()
        invariant
            i <= rec.status_delta@.len(),
            affirmed == exists|k: int| 0 <= k < i && #[trigger] rec.status_delta@[k].requirement@ == req@
                && rec.status_delta@[k].to@ == authored@,
        decreases rec.status_delta.len() - i,
    {
        if str_eq(rec.status_delta[i].requirement.as_str(), req) && str_eq(rec.status_delta[i].to.as_str(), authored) {
            affirmed = true;
        }
        i = i + 1;
    }
    if !affirmed {
        return false;
    }
    let mut j: usize = 0;
    while j < residual_keys.len()
        invariant
            j <= residual_keys@.len(),
            latest == Some(rec),
            forall|k: int| 0 <= k < j ==> #[trigger] views(rec.evidence_ref@).contains(views(residual_keys@)[k]),
        decreases residual_keys.len() - j,
    {
        if !contains_str(&rec.evidence_ref, residual_keys[j].as_str()) {
            assert(views(residual_keys@)[j as int] == residual_keys@[j as int]@);
            return false;
        }
        j = j + 1;
    }
    true
}

/// The requirements the closure gate checks: the union of those covered, those
/// declared, and those moved by the slice's owning records — each once, in
/// ascending order.
pub fn gate_requirement_set(covered: &Vec<String>, declared: &Vec<String>, owned_recs: &Vec<RecDoc>) -> (r: Vec<String>)
    ensures
        forall|i: int, j: int| 0 <= i < j < r@.len() ==> lex_lt(#[trigger] r@[i]@, #[trigger] r@[j]@),
        forall|x: Seq<char>| #[trigger] views(r@).contains(x) <==> (views(covered@).contains(x) || views(declared@).contains(x)
            || exists|k: int| 0 <= k < owned_recs@.len() && names_req(#[trigger] owned_recs@[k], x)),
{
    let mut set = SortedSet::new();
    let mut i: usize = 0;
    while i < covered.len()
        invariant
            i <= covered@.len(),
            set.wf(),
            forall|x: Seq<char>| #[trigger] set@.contains(x) <==> views(covered@).take(i as int).contains(x),
        decreases covered.len() - i,
    {
        let ghost before = set@;
        set.insert(covered[i].clone());
        proof {
            assert forall|x: Seq<char>| #[trigger] set@.contains(x) <==> views(covered@).take(i + 1).contains(x) by {
                assert(views(covered@).take(i + 1) =~= views(covered@).take(i as int).push(covered@[i as int]@));
                assert(before.contains(x) <==> views(covered@).take(i as int).contains(x));
                if views(covered@).take(i + 1).contains(x) {
                    let k = choose|k: int| 0 <= k < i + 1 && #[trigger] views(covered@).take(i + 1)[k] == x;
                    if k < i {
                        assert(views(covered@).take(i as int)[k] == x);
                    }
                }
                if views(covered@).take(i as int).contains(x) {
                    let k = choose|k: int| 0 <= k < i && #[trigger] views(covered@).take(i as int)[k] == x;
                    assert(views(covered@).take(i + 1)[k] == x);
                }
                if x == covered@[i as int]@ {
                    assert(views(covered@).take(i + 1)[i as int] == x);
                }
            }
        }
        i = i + 1;
    }
    assert(views(covered@).take(covered@.len() as int) =~= views(covered@));
    let mut j: usize = 0;
    while j < declared.len()
        invariant
            j <= declared@.len(),
            set.wf(),
            forall|x: Seq<char>| #[trigger] set@.contains(x) <==> (views(covered@).contains(x)
                || views(declared@).take(j as int).contains(x)),
        decreases declared.len() - j,
    {
        let ghost before = set@;
        set.insert(declared[j].clone());
        proof {
            assert forall|x: Seq<char>| #[trigger] set@.contains(x) <==> (views(covered@).contains(x)
                || views(declared@).take(j + 1).contains(x)) by {
                assert(before.contains(x) <==> (views(covered@).contains(x) || views(declared@).take(j as int).contains(x)));
                if views(declared@).take(j + 1).contains(x) {
                    let k = choose|k: int| 0 <= k < j + 1 && #[trigger] views(declared@).take(j + 1)[k] == x;
                    if k < j {
                        assert(views(declared@).take(j as int)[k] == x);
                    }
                }
                if views(declared@).take(j as int).contains(x) {
                    let k = choose|k: int| 0 <= k < j && #[trigger] views(declared@).take(j as int)[k] == x;
                    assert(views(declared@).take(j + 1)[k] == x);
                }
                if x == declared@[j as int]@ {
                    assert(views(declared@).take(j + 1)[j as int] == x);
                }
            }
        }
        j = j + 1;
    }
    assert(views(declared@).take(declared@.len() as int) =~= views(declared@));
    let mut k: usize = 0;
    while k < owned_recs.len()
        invariant
            k <= owned_recs@.len(),
            set.wf(),
            forall|x: Seq<char>| #[trigger] set@.contains(x) <==> (views(covered@).contains(x) || views(declared@).contains(x)
                || exists|m: int| 0 <= m < k && names_req(#[trigger] owned_recs@[m], x)),
        decreases owned_recs.len() - k,
    {
        let rec = &owned_recs[k];
        let mut d: usize = 0;
        while d < rec.status_delta.len()
            invariant
                d <= rec.status_delta@.len(),
                k < owned_recs@.len(),
                *rec == owned_recs@[k as int],
                set.wf(),
                forall|x: Seq<char>| #[trigger] set@.contains(x) <==> (views(covered@).contains(x) || views(declared@).contains(x)
                    || (exists|m: int| 0 <= m < k && names_req(#[trigger] owned_recs@[m], x))
                    || exists|e: int| 0 <= e < d && #[trigger] rec.status_delta@[e].requirement@ == x),
            decreases rec.status_delta.len() - d,
        {
            set.insert(rec.status_delta[d].requirement.clone());
            proof {
                assert(rec.status_delta@[d as int].requirement@ == rec.status_delta@[d as int].requirement@);
            }
            d = d + 1;
        }
        proof {
            assert forall|x: Seq<char>| #[trigger] set@.contains(x) <==> (views(covered@).contains(x) || views(declared@).contains(x)
                || exists|m: int| 0 <= m < k + 1 && names_req(#[trigger] owned_recs@[m], x)) by {
                if names_req(owned_recs@[k as int], x) {
                    let e = choose|e: int| 0 <= e < rec.status_delta@.len() && #[trigger] rec.status_delta@[e].requirement@ == x;
                    assert(rec.status_delta@[e].requirement@ == x);
                }
                if exists|e: int| 0 <= e < rec.status_delta@.len() && #[trigger] rec.status_delta@[e].requirement@ == x {
                    assert(names_req(owned_recs@[k as int], x));
                }
            }
        }
        k = k + 1;
    }
    let mut r: Vec<String> = Vec::new();
    let mut m: usize = 0;
    proof {
        set.lemma_ascending();
    }
    while m < set.len()
        invariant
            m <= set@.len(),
            set.wf(),
            r@.len() == m,
            views(r@) == set@.take(m as int),
        decreases set@.len() - m,
    {
        let ghost before = r@;
        r.push(set.at(m).clone());
        proof {
            assert forall|k: int| 0 <= k < m implies #[trigger] views(r@)[k] == views(before)[k] by {
                assert(r@[k] == before[k]);
            }
        }
        m = m + 1;
        assert(views(r@) =~= set@.take(m as int));
    }
    assert(set@.take(set@.len() as int) =~= set@);
    proof {
        set.lemma_ascending();
        assert forall|i: int, j: int| 0 <= i < j < r@.len() implies lex_lt(#[trigger] r@[i]@, #[trigger] r@[j]@) by {
            assert(r@[i]@ == set@[i] && r@[j]@ == set@[j]);
        }
    }
    r
}

/// A slice's filterable fields: its `SL-NNN` id, slug, title, status, tags.
pub fn key(m: &Meta) -> (f: FilterFields)
    ensures
        f.canonical@ == canonical_id_spec("SL"@, m.id as nat),
        f.slug@ == m.slug@,
        f.title@ == m.title@,
        f.status@ == m.status@,
        f.tags@ == m.tags@,
{
    FilterFields {
        canonical: canonical_id(m.id),
        slug: m.slug.clone(),
        title: m.title.clone(),
        status: m.status.clone(),
        tags: copy_strings(&m.tags),
    }
}

/// The structured phase counts of a JSON row.
#[derive(Debug, Clone, Copy, PartialEq, Eq, Structural)]
pub struct PhasesJson {
    pub completed: u32,
    pub total: u32,
    pub blocked: u32,
}

/// One slice as a JSON row: its prefixed id, list fields, and phase counts
/// (`None` when untracked).
#[derive(Debug, Clone)]
pub struct SliceRow {
    pub id: String,
    pub status: String,
    pub slug: String,
    pub title: String,
    pub phases: Option<PhasesJson>,
}

/// The JSON row of one slice.
pub open spec fn slice_row_ok(row: SliceRow, m: Meta, rollup: Option<PhaseRollup>) -> bool {
    &&& row.id@ == canonical_id_spec("SL"@, m.id as nat)
    &&& row.status@ == m.status@
    &&& row.slug@ == m.slug@
    &&& row.title@ == m.title@
    &&& row.phases == match rollup {
        Some(r) => Some(PhasesJson { completed: r.completed, total: rollup_total(r) as u32, blocked: r.blocked }),
        None => None,
    }
}

/// The JSON rows of listed slices, one per slice, in order.
pub fn json_rows(rows: &Vec<(Meta, Option<PhaseRollup>)>) -> (out: Vec<SliceRow>)
    requires
        forall|i: int| 0 <= i < rows@.len() ==> #[trigger] rollup_fits(rows@[i].1),
    ensures
        out@.len() == rows@.len(),
        forall|i: int| 0 <= i < rows@.len() ==> slice_row_ok(#[trigger] out@[i], rows@[i].0, rows@[i].1),
{
    let mut out: Vec<SliceRow> = Vec::new();
    let mut i: usize = 0;
    while i < rows.len()
        invariant
            i <= rows@.len(),
            out@.len() == i,
            forall|k: int| 0 <= k < rows@.len() ==> #[trigger] rollup_fits(rows@[k].1),
            forall|k: int| 0 <= k < i ==> slice_row_ok(#[trigger] out@[k], rows@[k].0, rows@[k].1),
        decreases rows.len() - i,
    {
        let (m, rollup) = &rows[i];
        assert(rollup_fits(rows@[i as int].1));
        let phases = match rollup {
            Some(r) => Some(PhasesJson { completed: r.completed, total: r.total(), blocked: r.blocked }),
            None => None,
        };
        out.push(SliceRow {
            id: canonical_id(m.id),
            status: m.status.clone(),
            slug: m.slug.clone(),
            title: m.title.clone(),
            phases,
        });
        i = i + 1;
    }
    out
}

/// A slice's authored closure-gate declaration: the requirements its gate is
/// answerable for on top of its observed coverage.
#[derive(Debug, Clone)]
pub struct Gate {
    pub extra_reqs: Vec<String>,
}

impl Default for Gate {
    /// No extra requirement declared.
    fn default() -> (g: Self)
        ensures
            g.extra_reqs@.len() == 0,
    {
        Gate { extra_reqs: Vec::new() }
    }
}


/// For tracking with no anomalies, a `done` slice diverges exactly when some
/// phase, in any bucket, is not completed; any other authored status
/// diverges exactly when there are phases and every one is completed.
pub proof fn lemma_divergence_follows_outstanding_work(authored: Seq<char>, r: PhaseRollup)
    requires
        r.unknown == 0,
        r.missing_toml == 0,
    ensures
        authored == "done"@ ==> (divergent_spec(authored, Some(r))
            <==> r.completed < r.planned + r.in_progress + r.completed + r.blocked),
        authored != "done"@ ==> (divergent_spec(authored, Some(r))
            <==> (r.completed > 0 && r.planned == 0 && r.in_progress == 0 && r.blocked == 0)),
        divergent_spec(authored, None) == false,
{
}

} // verus!
