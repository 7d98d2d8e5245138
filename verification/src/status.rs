//! The project dashboard: the data gathered about the work in a repository,
//! assembled into one value and rendered as a short human-readable report.

use vstd::prelude::*;
use crate::sorted::SortedMap;
use crate::text::{decimal, decimal_string, join, join_spec, views, concat_all, str_eq, chars_of,
    string_of_range, find_char, lemma_find_char, find_char_between, rfind_seq, rfind_between};

verus! {

/// Slice counts: active, blocked, total.
#[derive(Debug, Clone, Copy, PartialEq, Eq, Structural)]
pub struct SliceCounts {
    pub active: usize,
    pub blocked: usize,
    pub total: usize,
}

/// One next-up advisory item.
#[derive(Debug, Clone)]
pub struct NextItem {
    pub id: String,
    pub status: String,
    pub title: String,
}

/// One open RFC listed by id and title.
#[derive(Debug, Clone)]
pub struct RfcTitle {
    pub id: String,
    pub title: String,
}

/// How many RFCs are open and in all, and the titles of the open ones shown.
#[derive(Debug, Clone)]
pub struct RfcSummary {
    pub open: usize,
    pub total: usize,
    pub open_titles: Vec<RfcTitle>,
}

/// The work section: slice counts, open backlog items by kind, next-up, RFCs.
#[derive(Debug, Clone)]
pub struct WorkSection {
    pub slices: SliceCounts,
    pub backlog: SortedMap<usize>,
    pub next_up: Vec<NextItem>,
    pub rfcs: RfcSummary,
}

/// One blocked slice or backlog item and what blocks it.
#[derive(Debug, Clone)]
pub struct BlockedItem {
    pub id: String,
    pub title: String,
    pub blocked_by: Vec<String>,
}

/// The boot snapshot: `fresh`, `stale` or `missing`, its age, its commit.
#[derive(Debug, Clone)]
pub struct BootSection {
    pub staleness: String,
    pub age_seconds: u64,
    pub commit: String,
}

/// One recent commit.
#[derive(Debug, Clone)]
pub struct CommitLine {
    pub hash: String,
    pub subject: String,
    pub relative_time: String,
}

/// The assembled dashboard.
#[derive(Debug, Clone)]
pub struct Status {
    pub work: WorkSection,
    pub blocked_slices: Vec<BlockedItem>,
    pub blocked_backlog: Vec<BlockedItem>,
    pub boot: BootSection,
    pub recent_commits: Vec<CommitLine>,
}

/// Put the gathered parts together, each in its place.
pub fn assemble_status(
    slice_counts: SliceCounts,
    backlog_counts: SortedMap<usize>,
    next_up: Vec<NextItem>,
    rfcs: RfcSummary,
    blocked_slices: Vec<BlockedItem>,
    blocked_backlog: Vec<BlockedItem>,
    boot: BootSection,
    recent_commits: Vec<CommitLine>,
) -> (s: Status)
    ensures
        s.work.slices == slice_counts,
        s.work.backlog == backlog_counts,
        s.work.next_up == next_up,
        s.work.rfcs == rfcs,
        s.blocked_slices == blocked_slices,
        s.blocked_backlog == blocked_backlog,
        s.boot == boot,
        s.recent_commits == recent_commits,
{
    Status {
        work: WorkSection { slices: slice_counts, backlog: backlog_counts, next_up, rfcs },
        blocked_slices,
        blocked_backlog,
        boot,
        recent_commits,
    }
}

/// The sum of the counts in a backlog tally.
pub open spec fn backlog_sum(b: Seq<(Seq<char>, usize)>) -> nat
    decreases b.len(),
{
    if b.len() == 0 {
        0
    } else {
        backlog_sum(b.drop_last()) + b.last().1 as nat
    }
}

/// A repository with no active work: no active slice and no open backlog item.
pub open spec fn is_empty_spec(s: Status) -> bool {
    s.work.slices.active == 0 && backlog_sum(s.work.backlog@) == 0
}

/// The tally sums to zero exactly when every count is zero.
proof fn lemma_backlog_sum_zero(b: Seq<(Seq<char>, usize)>)
    ensures
        (backlog_sum(b) == 0) == (forall|i: int| 0 <= i < b.len() ==> #[trigger] b[i].1 == 0),
    decreases b.len(),
{
    if b.len() > 0 {
        let d = b.drop_last();
        lemma_backlog_sum_zero(d);
        if backlog_sum(b) == 0 {
            assert forall|i: int| 0 <= i < b.len() implies #[trigger] b[i].1 == 0 by {
                if i < b.len() - 1 {
                    assert(d[i] == b[i]);
                }
            }
        } else if forall|i: int| 0 <= i < b.len() ==> #[trigger] b[i].1 == 0 {
            assert forall|i: int| 0 <= i < d.len() implies #[trigger] d[i].1 == 0 by {
                assert(d[i] == b[i]);
            }
            assert(b.last().1 == b[b.len() - 1].1);
        }
    }
}

/// Whether the dashboard describes a repository with no active work.
pub fn is_empty(status: &Status) -> (r: bool)
    ensures
        r == is_empty_spec(*status),
{
    proof {
        lemma_backlog_sum_zero(status.work.backlog@);
    }
    if status.work.slices.active != 0 {
        return false;
    }
    let n = status.work.backlog.len();
    let mut i: usize = 0;
    while i < n
        invariant
            i <= n,
            n == status.work.backlog@.len(),
            forall|j: int| 0 <= j < i ==> #[trigger] status.work.backlog@[j].1 == 0,
        decreases n - i,
    {
        if *status.work.backlog.value_at(i) != 0 {
            proof {
                lemma_backlog_sum_zero(status.work.backlog@);
            }
            return false;
        }
        i = i + 1;
    }
    true
}

/// `  slices: A active (B blocked), T total` — the blocked part only when
/// some slice is blocked.
pub open spec fn slices_line_spec(c: SliceCounts) -> Seq<char> {
    "  slices: "@ + decimal(c.active as nat) + " active"@
        + (if c.blocked > 0 { " ("@ + decimal(c.blocked as nat) + " blocked)"@ } else { Seq::empty() })
        + ", "@ + decimal(c.total as nat) + " total\n"@
}

fn slices_line(c: SliceCounts) -> (s: String)
    ensures
        s@ == slices_line_spec(c),
{
    let mut s = String::from_str("  slices: ");
    let a = decimal_string(c.active as u64);
    s.append(a.as_str());
    s.append(" active");
    if c.blocked > 0 {
        s.append(" (");
        let b = decimal_string(c.blocked as u64);
        s.append(b.as_str());
        s.append(" blocked)");
    }
    s.append(", ");
    let t = decimal_string(c.total as u64);
    s.append(t.as_str());
    s.append(" total\n");
    s
}

/// `N kind`, with an `s` on the kind unless N is one.
pub open spec fn backlog_entry_spec(e: (Seq<char>, usize)) -> Seq<char> {
    decimal(e.1 as nat) + " "@ + e.0 + (if e.1 == 1 { Seq::empty() } else { "s"@ })
}

/// `  backlog: 2 issues, 1 risk` in kind order; nothing for an empty tally.
pub open spec fn backlog_line_spec(b: Seq<(Seq<char>, usize)>) -> Seq<char> {
    if b.len() == 0 {
        Seq::empty()
    } else {
        "  backlog: "@ + join_spec(b.map_values(|e: (Seq<char>, usize)| backlog_entry_spec(e)), ", "@) + "\n"@
    }
}

fn backlog_line(b: &SortedMap<usize>) -> (s: String)
    ensures
        s@ == backlog_line_spec(b@),
{
    let n = b.len();
    if n == 0 {
        return String::new();
    }
    let ghost f = |e: (Seq<char>, usize)| backlog_entry_spec(e);
    let mut parts: Vec<String> = Vec::new();
    let mut i: usize = 0;
    while i < n
        invariant
            i <= n,
            n == b@.len(),
            f == (|e: (Seq<char>, usize)| backlog_entry_spec(e)),
            parts@.len() == i,
            views(parts@) == b@.map_values(f).take(i as int),
        decreases n - i,
    {
        let v = *b.value_at(i);
        let mut e = decimal_string(v as u64);
        e.append(" ");
        e.append(b.key_at(i).as_str());
        if v != 1 {
            e.append("s");
        }
        assert(e@ == f(b@[i as int]));
        let ghost before = parts@;
        parts.push(e);
        proof {
            assert forall|k: int| 0 <= k < i implies #[trigger] views(parts@)[k] == views(before)[k] by {
                assert(parts@[k] == before[k]);
            }
        }
        i = i + 1;
        assert(views(parts@) =~= b@.map_values(f).take(i as int));
    }
    assert(b@.map_values(f).take(n as int) =~= b@.map_values(f));
    let mut s = String::from_str("  backlog: ");
    let j = join(&parts, ", ");
    s.append(j.as_str());
    s.append("\n");
    s
}

/// `  RFC-007 Title` on a line of its own.
pub open spec fn rfc_title_line(t: RfcTitle) -> Seq<char> {
    "  "@ + t.id@ + " "@ + t.title@ + "\n"@
}

/// The RFC lines: the count line, one line per listed open title, then
/// `  +K more` for open RFCs beyond those listed; nothing when there is none.
pub open spec fn rfc_lines_spec(r: RfcSummary) -> Seq<char> {
    if r.total > 0 {
        "  rfcs: "@ + decimal(r.open as nat) + " open, "@ + decimal(r.total as nat) + " total\n"@
            + concat_all(r.open_titles@.map_values(|t: RfcTitle| rfc_title_line(t)))
            + (if r.open > r.open_titles@.len() {
                "  +"@ + decimal((r.open - r.open_titles@.len()) as nat) + " more\n"@
            } else {
                Seq::empty()
            })
    } else {
        Seq::empty()
    }
}

fn rfc_lines(r: &RfcSummary) -> (s: String)
    ensures
        s@ == rfc_lines_spec(*r),
{
    if r.total == 0 {
        return String::new();
    }
    let mut s = String::from_str("  rfcs: ");
    let o = decimal_string(r.open as u64);
    s.append(o.as_str());
    s.append(" open, ");
    let t = decimal_string(r.total as u64);
    s.append(t.as_str());
    s.append(" total\n");
    let ghost head = s@;
    let ghost f = |t: RfcTitle| rfc_title_line(t);
    let mut i: usize = 0;
    while i < r.open_titles.len()
        invariant
            i <= r.open_titles@.len(),
            f == (|t: RfcTitle| rfc_title_line(t)),
            s@ == head + concat_all(r.open_titles@.map_values(f).take(i as int)),
        decreases r.open_titles.len() - i,
    {
        let t = &r.open_titles[i];
        s.append("  ");
        s.append(t.id.as_str());
        s.append(" ");
        s.append(t.title.as_str());
        s.append("\n");
        i = i + 1;
        assert(r.open_titles@.map_values(f).take(i as int).drop_last()
            =~= r.open_titles@.map_values(f).take(i - 1));
    }
    assert(r.open_titles@.map_values(f).take(i as int) =~= r.open_titles@.map_values(f));
    if r.open > r.open_titles.len() {
        s.append("  +");
        let k = decimal_string((r.open - r.open_titles.len()) as u64);
        s.append(k.as_str());
        s.append(" more\n");
    }
    s
}

/// `ID (status)` for a next-up item.
pub open spec fn next_item_text(n: NextItem) -> Seq<char> {
    n.id@ + " ("@ + n.status@ + ")"@
}

/// `  next up: A (s), B (s)`; nothing when there is no item.
pub open spec fn next_line_spec(items: Seq<NextItem>) -> Seq<char> {
    if items.len() == 0 {
        Seq::empty()
    } else {
        "  next up: "@ + join_spec(items.map_values(|n: NextItem| next_item_text(n)), ", "@) + "\n"@
    }
}

fn next_line(items: &Vec<NextItem>) -> (s: String)
    ensures
        s@ == next_line_spec(items@),
{
    if items.len() == 0 {
        return String::new();
    }
    let ghost f = |n: NextItem| next_item_text(n);
    let mut parts: Vec<String> = Vec::new();
    let mut i: usize = 0;
    while i < items.len()
        invariant
            i <= items@.len(),
            f == (|n: NextItem| next_item_text(n)),
            parts@.len() == i,
            views(parts@) == items@.map_values(f).take(i as int),
        decreases items.len() - i,
    {
        let n = &items[i];
        let mut e = String::from_str(n.id.as_str());
        e.append(" (");
        e.append(n.status.as_str());
        e.append(")");
        assert(e@ == f(items@[i as int]));
        let ghost before = parts@;
        parts.push(e);
        proof {
            assert forall|k: int| 0 <= k < i implies #[trigger] views(parts@)[k] == views(before)[k] by {
                assert(parts@[k] == before[k]);
            }
        }
        i = i + 1;
        assert(views(parts@) =~= items@.map_values(f).take(i as int));
    }
    assert(items@.map_values(f).take(items@.len() as int) =~= items@.map_values(f));
    let mut s = String::from_str("  next up: ");
    let j = join(&parts, ", ");
    s.append(j.as_str());
    s.append("\n");
    s
}

/// `  ID blocked by A, B — Title`.
pub open spec fn blocked_item_line(b: BlockedItem) -> Seq<char> {
    "  "@ + b.id@ + " blocked by "@ + join_spec(views(b.blocked_by@), ", "@) + " — "@ + b.title@ + "\n"@
}

/// A blank line, the header, then one line per blocked item; nothing when
/// there is none.
pub open spec fn blocked_section_spec(header: Seq<char>, items: Seq<BlockedItem>) -> Seq<char> {
    if items.len() == 0 {
        Seq::empty()
    } else {
        "\n"@ + header + "\n"@ + concat_all(items.map_values(|b: BlockedItem| blocked_item_line(b)))
    }
}

fn blocked_section(header: &str, items: &Vec<BlockedItem>) -> (s: String)
    ensures
        s@ == blocked_section_spec(header@, items@),
{
    if items.len() == 0 {
        return String::new();
    }
    let mut s = String::from_str("\n");
    s.append(header);
    s.append("\n");
    let ghost head = s@;
    let ghost f = |b: BlockedItem| blocked_item_line(b);
    let mut i: usize = 0;
    while i < items.len()
        invariant
            i <= items@.len(),
            f == (|b: BlockedItem| blocked_item_line(b)),
            s@ == head + concat_all(items@.map_values(f).take(i as int)),
        decreases items.len() - i,
    {
        let b = &items[i];
        s.append("  ");
        s.append(b.id.as_str());
        s.append(" blocked by ");
        let j = join(&b.blocked_by, ", ");
        s.append(j.as_str());
        s.append(" — ");
        s.append(b.title.as_str());
        s.append("\n");
        i = i + 1;
        assert(items@.map_values(f).take(i as int).drop_last() =~= items@.map_values(f).take(i - 1));
    }
    assert(items@.map_values(f).take(i as int) =~= items@.map_values(f));
    s
}

/// Whole minutes, rounded up, in `secs` seconds.
pub open spec fn minutes_up(secs: nat) -> nat {
    (secs + 59) / 60
}

/// The boot line: `fresh (M min ago) from commit C`, `stale from commit C`,
/// or `missing` for any other staleness.
pub open spec fn boot_line_spec(b: BootSection) -> Seq<char> {
    if b.staleness@ == "fresh"@ {
        "fresh ("@ + decimal(minutes_up(b.age_seconds as nat)) + " min ago) from commit "@ + b.commit@ + "\n"@
    } else if b.staleness@ == "stale"@ {
        "stale from commit "@ + b.commit@ + "\n"@
    } else {
        "missing\n"@
    }
}

/// The human-readable boot line.
pub fn boot_line(boot: &BootSection) -> (s: String)
    ensures
        s@ == boot_line_spec(*boot),
{
    if str_eq(boot.staleness.as_str(), "fresh") {
        let q = boot.age_seconds / 60;
        let mins = if boot.age_seconds % 60 > 0 { q + 1 } else { q };
        assert(mins == minutes_up(boot.age_seconds as nat));
        let mut s = String::from_str("fresh (");
        let m = decimal_string(mins);
        s.append(m.as_str());
        s.append(" min ago) from commit ");
        s.append(boot.commit.as_str());
        s.append("\n");
        s
    } else if str_eq(boot.staleness.as_str(), "stale") {
        let mut s = String::from_str("stale from commit ");
        s.append(boot.commit.as_str());
        s.append("\n");
        s
    } else {
        String::from_str("missing\n")
    }
}

/// `  HASH subject — when`.
pub open spec fn commit_line_spec(c: CommitLine) -> Seq<char> {
    "  "@ + c.hash@ + " "@ + c.subject@ + " — "@ + c.relative_time@ + "\n"@
}

/// The recent-commits section; nothing when there is no commit.
pub open spec fn commits_section_spec(cs: Seq<CommitLine>) -> Seq<char> {
    if cs.len() == 0 {
        Seq::empty()
    } else {
        "\nRecent commits\n"@ + concat_all(cs.map_values(|c: CommitLine| commit_line_spec(c)))
    }
}

fn commits_section(cs: &Vec<CommitLine>) -> (s: String)
    ensures
        s@ == commits_section_spec(cs@),
{
    if cs.len() == 0 {
        return String::new();
    }
    let mut s = String::from_str("\nRecent commits\n");
    let ghost head = s@;
    let ghost f = |c: CommitLine| commit_line_spec(c);
    let mut i: usize = 0;
    while i < cs.len()
        invariant
            i <= cs@.len(),
            f == (|c: CommitLine| commit_line_spec(c)),
            s@ == head + concat_all(cs@.map_values(f).take(i as int)),
        decreases cs.len() - i,
    {
        let c = &cs[i];
        s.append("  ");
        s.append(c.hash.as_str());
        s.append(" ");
        s.append(c.subject.as_str());
        s.append(" — ");
        s.append(c.relative_time.as_str());
        s.append("\n");
        i = i + 1;
        assert(cs@.map_values(f).take(i as int).drop_last() =~= cs@.map_values(f).take(i - 1));
    }
    assert(cs@.map_values(f).take(i as int) =~= cs@.map_values(f));
    s
}

/// The human report: `No active work.` alone when nothing is active, else the
/// work section, the blocked sections, the boot line and the recent commits,
/// each part present only when it has something to say.
pub open spec fn render_human_spec(s: Status) -> Seq<char> {
    if is_empty_spec(s) {
        "No active work.\n"@
    } else {
        "Work\n"@ + slices_line_spec(s.work.slices) + backlog_line_spec(s.work.backlog@)
            + rfc_lines_spec(s.work.rfcs) + next_line_spec(s.work.next_up@)
            + blocked_section_spec("Blocked slices"@, s.blocked_slices@)
            + blocked_section_spec("Blocked backlog"@, s.blocked_backlog@)
            + "\nBoot\n  boot.md "@ + boot_line_spec(s.boot)
            + commits_section_spec(s.recent_commits@) + "\n"@
    }
}

/// Render the dashboard as human-readable text.
pub fn render_human(status: &Status) -> (out: String)
    ensures
        out@ == render_human_spec(*status),
{
    if is_empty(status) {
        return String::from_str("No active work.\n");
    }
    let mut out = String::from_str("Work\n");
    let a = slices_line(status.work.slices);
    out.append(a.as_str());
    let b = backlog_line(&status.work.backlog);
    out.append(b.as_str());
    let c = rfc_lines(&status.work.rfcs);
    out.append(c.as_str());
    let d = next_line(&status.work.next_up);
    out.append(d.as_str());
    let e = blocked_section("Blocked slices", &status.blocked_slices);
    out.append(e.as_str());
    let f = blocked_section("Blocked backlog", &status.blocked_backlog);
    out.append(f.as_str());
    out.append("\nBoot\n  boot.md ");
    let g = boot_line(&status.boot);
    out.append(g.as_str());
    let h = commits_section(&status.recent_commits);
    out.append(h.as_str());
    out.append("\n");
    out
}

/// A line without the `\r` of a `\r\n` ending.
pub open spec fn strip_cr(l: Seq<char>) -> Seq<char> {
    if l.len() > 0 && l.last() == '\r' {
        l.drop_last()
    } else {
        l
    }
}

/// The lines of `s` as `str::lines` yields them: split at each `\n`, a `\r`
/// before it dropped, no empty line after a final `\n`.
pub open spec fn lines_spec(s: Seq<char>) -> Seq<Seq<char>>
    decreases s.len(),
{
    if s.len() == 0 {
        Seq::empty()
    } else {
        match find_char(s, '\n') {
            None => seq![s],
            Some(i) => {
                proof {
                    lemma_find_char(s, '\n');
                }
                seq![strip_cr(s.take(i as int))] + lines_spec(s.skip((i + 1) as int))
            },
        }
    }
}

/// One `HASH subject — when` line split into its three parts: the hash runs
/// to the first space, the time follows the last ` — `.
pub open spec fn parse_commit_spec(l: Seq<char>) -> Option<(Seq<char>, Seq<char>, Seq<char>)> {
    match find_char(l, ' ') {
        None => None,
        Some(i) => {
            let rest = l.skip((i + 1) as int);
            match rfind_seq(rest, " — "@) {
                None => None,
                Some(j) => Some((l.take(i as int), rest.take(j as int), rest.skip((j + 3) as int))),
            }
        },
    }
}

/// The commits of the lines that parse, in order; the others are dropped.
pub open spec fn commits_of(lines: Seq<Seq<char>>) -> Seq<(Seq<char>, Seq<char>, Seq<char>)>
    decreases lines.len(),
{
    if lines.len() == 0 {
        Seq::empty()
    } else {
        (match parse_commit_spec(lines[0]) {
            Some(c) => seq![c],
            None => Seq::empty(),
        }) + commits_of(lines.skip(1))
    }
}

/// A commit line by its three parts.
pub open spec fn commit_parts(c: CommitLine) -> (Seq<char>, Seq<char>, Seq<char>) {
    (c.hash@, c.subject@, c.relative_time@)
}

/// The commits of one line followed by more lines.
proof fn lemma_commits_of_cons(l: Seq<char>, rest: Seq<Seq<char>>)
    ensures
        commits_of(seq![l] + rest) == (match parse_commit_spec(l) {
            Some(c) => seq![c],
            None => Seq::<(Seq<char>, Seq<char>, Seq<char>)>::empty(),
        }) + commits_of(rest),
{
    let all = seq![l] + rest;
    assert(all[0] == l);
    assert(all.skip(1) =~= rest);
}

/// Where the line starting at `pos` ends, and where the next one starts.
fn line_bounds(cs: &Vec<char>, pos: usize) -> (r: (usize, usize))
    requires
        pos < cs@.len(),
    ensures
        pos <= r.0 <= r.1 <= cs@.len(),
        pos < r.1,
        lines_spec(cs@.skip(pos as int)) == seq![cs@.subrange(pos as int, r.0 as int)]
            + lines_spec(cs@.skip(r.1 as int)),
{
    let n = cs.len();
    let ghost rest = cs@.skip(pos as int);
    assert(cs@.subrange(pos as int, n as int) =~= rest);
    proof {
        lemma_find_char(rest, '\n');
    }
    match find_char_between(cs, '\n', pos, n) {
        Some(j) => {
            let end = if j > pos && cs[j - 1] == '\r' { j - 1 } else { j };
            proof {
                assert(rest.take(j - pos) =~= cs@.subrange(pos as int, j as int));
                assert(rest.skip(j - pos + 1) =~= cs@.skip(j + 1));
                assert(strip_cr(rest.take(j - pos)) =~= cs@.subrange(pos as int, end as int));
            }
            (end, j + 1)
        },
        None => {
            proof {
                assert(cs@.skip(n as int) =~= Seq::<char>::empty());
                assert(seq![rest] =~= seq![rest] + lines_spec(cs@.skip(n as int)));
            }
            (n, n)
        },
    }
}

/// The commit on the line `cs[pos..end]`, if the line has that shape.
fn parse_commit_at(cs: &Vec<char>, sep: &Vec<char>, pos: usize, end: usize) -> (r: Option<CommitLine>)
    requires
        pos <= end <= cs@.len(),
        sep@ == " — "@,
    ensures
        match r {
            Some(c) => parse_commit_spec(cs@.subrange(pos as int, end as int)) == Some(commit_parts(c)),
            None => parse_commit_spec(cs@.subrange(pos as int, end as int)) == None::<(Seq<char>, Seq<char>, Seq<char>)>,
        },
{
    let ghost line = cs@.subrange(pos as int, end as int);
    proof {
        reveal_strlit(" — ");
    }
    match find_char_between(cs, ' ', pos, end) {
        None => None,
        Some(i) => {
            let ghost tail = line.skip(i - pos + 1);
            assert(tail =~= cs@.subrange(i + 1, end as int));
            match rfind_between(cs, sep, i + 1, end) {
                None => None,
                Some(k) => {
                    let hash = string_of_range(cs, pos, i);
                    let subject = string_of_range(cs, i + 1, k);
                    let when = string_of_range(cs, k + 3, end);
                    assert(hash@ =~= line.take(i - pos));
                    assert(subject@ =~= tail.take(k - (i + 1)));
                    assert(when@ =~= tail.skip(k - (i + 1) + 3));
                    Some(CommitLine { hash, subject, relative_time: when })
                },
            }
        },
    }
}

/// Parse `git log --format="%h %s — %ar"` output into commit lines; a line
/// that does not have that shape is skipped.
pub fn parse_git_log(text: &str) -> (out: Vec<CommitLine>)
    ensures
        out@.map_values(|c: CommitLine| commit_parts(c)) == commits_of(lines_spec(text@)),
{
    let cs = chars_of(text);
    let sep = chars_of(" — ");
    let n = cs.len();
    let ghost f = |c: CommitLine| commit_parts(c);
    let mut out: Vec<CommitLine> = Vec::new();
    let mut pos: usize = 0;
    assert(cs@.skip(0) =~= text@);
    while pos < n
        invariant
            pos <= n,
            n == cs@.len(),
            cs@ == text@,
            sep@ == " — "@,
            f == (|c: CommitLine| commit_parts(c)),
            out@.map_values(f) + commits_of(lines_spec(cs@.skip(pos as int))) == commits_of(lines_spec(text@)),
        decreases n - pos,
    {
        let (end, next) = line_bounds(&cs, pos);
        let ghost line = cs@.subrange(pos as int, end as int);
        let ghost later = lines_spec(cs@.skip(next as int));
        proof {
            lemma_commits_of_cons(line, later);
        }
        let ghost before = out@;
        match parse_commit_at(&cs, &sep, pos, end) {
            Some(c) => {
                out.push(c);
            },
            None => {},
        }
        proof {
            let part = match parse_commit_spec(line) {
                Some(c) => seq![c],
                None => Seq::<(Seq<char>, Seq<char>, Seq<char>)>::empty(),
            };
            assert(out@.map_values(f) =~= before.map_values(f) + part);
            assert(out@.map_values(f) + commits_of(later) =~= before.map_values(f) + (part + commits_of(later)));
        }
        pos = next;
    }
    assert(cs@.skip(n as int) =~= Seq::<char>::empty());
    assert(out@.map_values(f) =~= out@.map_values(f) + commits_of(lines_spec(cs@.skip(n as int))));
    out
}

} // verus!
