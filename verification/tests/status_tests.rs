use doctrine::sorted::SortedMap;
use doctrine::status::{
    assemble_status, boot_line, is_empty, parse_git_log, render_human, BlockedItem, BootSection, CommitLine,
    NextItem, RfcSummary, RfcTitle, SliceCounts, Status,
};

fn counts(active: usize, blocked: usize, total: usize) -> SliceCounts {
    SliceCounts { active, blocked, total }
}

fn empty_counts() -> SliceCounts {
    counts(0, 0, 0)
}

fn empty_backlog() -> SortedMap<usize> {
    SortedMap::new()
}

fn empty_next() -> Vec<NextItem> {
    Vec::new()
}

fn empty_blocked() -> Vec<BlockedItem> {
    Vec::new()
}

fn fresh_boot() -> BootSection {
    BootSection { staleness: "fresh".to_string(), age_seconds: 120, commit: "a3f7b2c".to_string() }
}

fn no_commits() -> Vec<CommitLine> {
    Vec::new()
}

fn empty_rfcs() -> RfcSummary {
    RfcSummary { open: 0, total: 0, open_titles: Vec::new() }
}

fn simple(c: SliceCounts, backlog: SortedMap<usize>, rfcs: RfcSummary, boot: BootSection) -> Status {
    assemble_status(c, backlog, empty_next(), rfcs, empty_blocked(), empty_blocked(), boot, no_commits())
}

#[test]
fn empty_corpus_shows_no_active_work() {
    let status = assemble_status(
        empty_counts(),
        empty_backlog(),
        empty_next(),
        empty_rfcs(),
        empty_blocked(),
        empty_blocked(),
        fresh_boot(),
        no_commits(),
    );
    assert_eq!(render_human(&status), "No active work.\n");
}

#[test]
fn non_empty_status_shows_all_sections() {
    let mut backlog = SortedMap::new();
    backlog.insert("issue".to_string(), 3_usize);
    backlog.insert("improvement".to_string(), 1_usize);
    let next = vec![NextItem { id: "SL-086".to_string(), status: "design".to_string(), title: "CLI UX".to_string() }];
    let blocked_slices = vec![BlockedItem {
        id: "SL-082".to_string(),
        title: "reconcile engine".to_string(),
        blocked_by: vec!["SL-047".to_string()],
    }];
    let commits = vec![CommitLine {
        hash: "a3f7b2c".to_string(),
        subject: "plan(SL-086): phase sheets".to_string(),
        relative_time: "2 min ago".to_string(),
    }];
    let status = assemble_status(
        counts(2, 1, 4),
        backlog,
        next,
        empty_rfcs(),
        blocked_slices,
        empty_blocked(),
        fresh_boot(),
        commits,
    );
    let output = render_human(&status);
    assert!(output.contains("Work\n"));
    assert!(output.contains("slices: 2 active (1 blocked), 4 total\n"));
    assert!(output.contains("backlog: 1 improvement, 3 issues\n"));
    assert!(output.contains("next up: SL-086 (design)\n"));
    assert!(output.contains("Blocked slices\n"));
    assert!(output.contains("SL-082 blocked by SL-047 — reconcile engine\n"));
    assert!(output.contains("Boot\n"));
    assert!(output.contains("fresh (2 min ago) from commit a3f7b2c\n"));
    assert!(output.contains("Recent commits\n"));
    assert!(output.contains("a3f7b2c plan(SL-086): phase sheets — 2 min ago\n"));
}

#[test]
fn blocked_sections_suppressed_when_empty() {
    let status = simple(counts(1, 0, 1), empty_backlog(), empty_rfcs(), fresh_boot());
    let output = render_human(&status);
    assert!(!output.contains("Blocked slices"));
    assert!(!output.contains("Blocked backlog"));
}

#[test]
fn recent_commits_suppressed_when_empty() {
    let status = simple(counts(1, 0, 1), empty_backlog(), empty_rfcs(), fresh_boot());
    let output = render_human(&status);
    assert!(!output.contains("Recent commits"));
}

#[test]
fn boot_stale_output() {
    let boot = BootSection { staleness: "stale".to_string(), age_seconds: 3600, commit: "deadbee".to_string() };
    let status = simple(counts(1, 0, 1), empty_backlog(), empty_rfcs(), boot);
    let output = render_human(&status);
    assert!(output.contains("boot.md stale from commit deadbee\n"));
}

#[test]
fn boot_missing_output() {
    let boot = BootSection { staleness: "missing".to_string(), age_seconds: 0, commit: String::new() };
    let status = simple(counts(1, 0, 1), empty_backlog(), empty_rfcs(), boot);
    let output = render_human(&status);
    assert!(output.contains("boot.md missing\n"));
}

#[test]
fn is_empty_true_when_no_active_slices_and_no_backlog() {
    let status = simple(empty_counts(), empty_backlog(), empty_rfcs(), fresh_boot());
    assert!(is_empty(&status));
}

#[test]
fn is_empty_false_when_has_active_slices() {
    let status = simple(counts(1, 0, 1), empty_backlog(), empty_rfcs(), fresh_boot());
    assert!(!is_empty(&status));
}

#[test]
fn is_empty_false_when_has_backlog_items() {
    let mut backlog = SortedMap::new();
    backlog.insert("issue".to_string(), 1_usize);
    let status = simple(empty_counts(), backlog, empty_rfcs(), fresh_boot());
    assert!(!is_empty(&status));
}

#[test]
fn blocked_items_render_correctly() {
    let blocked = vec![BlockedItem {
        id: "SL-082".to_string(),
        title: "reconcile engine".to_string(),
        blocked_by: vec!["SL-047".to_string()],
    }];
    let status = assemble_status(
        counts(1, 1, 2),
        empty_backlog(),
        empty_next(),
        empty_rfcs(),
        blocked,
        empty_blocked(),
        fresh_boot(),
        no_commits(),
    );
    let output = render_human(&status);
    assert!(output.contains("Blocked slices"));
    assert!(output.contains("SL-082 blocked by SL-047"));
    assert!(!output.contains("Blocked backlog"));
}

#[test]
fn next_up_shows_five_items() {
    let mut backlog = SortedMap::new();
    backlog.insert("issue".to_string(), 1_usize);
    let next: Vec<NextItem> = (1..=5)
        .map(|i| NextItem { id: format!("SL-{i:03}"), status: "design".to_string(), title: format!("slice {i}") })
        .collect();
    let status = assemble_status(
        counts(5, 0, 5),
        backlog,
        next,
        empty_rfcs(),
        empty_blocked(),
        empty_blocked(),
        fresh_boot(),
        no_commits(),
    );
    let output = render_human(&status);
    assert!(output.contains("SL-001 (design)"));
    assert!(output.contains("SL-005 (design)"));
}

#[test]
fn rfc_count_line_renders_in_work_section() {
    let rfcs = RfcSummary {
        open: 3,
        total: 5,
        open_titles: vec![
            RfcTitle { id: "RFC-003".into(), title: "Use async".into() },
            RfcTitle { id: "RFC-002".into(), title: "Add linter".into() },
            RfcTitle { id: "RFC-001".into(), title: "New format".into() },
        ],
    };
    let status = simple(counts(1, 0, 2), empty_backlog(), rfcs, fresh_boot());
    let output = render_human(&status);
    assert!(output.contains("rfcs: 3 open, 5 total\n"));
    assert!(output.contains("RFC-003 Use async\n"));
    assert!(output.contains("RFC-002 Add linter\n"));
    assert!(output.contains("RFC-001 New format\n"));
    assert!(!output.contains("+ more"));
}

#[test]
fn rfc_overflow_shows_ten_titles_plus_k_more() {
    let titles: Vec<RfcTitle> =
        (1..=12).map(|i| RfcTitle { id: format!("RFC-{i:03}"), title: format!("Title {i}") }).collect();
    let rfcs = RfcSummary { open: 12, total: 15, open_titles: titles.into_iter().take(10).collect() };
    let status = simple(counts(1, 0, 2), empty_backlog(), rfcs, fresh_boot());
    let output = render_human(&status);
    assert!(output.contains("rfcs: 12 open, 15 total\n"));
    for i in 1..=10 {
        assert!(output.contains(&format!("RFC-{i:03} Title {i}\n")));
    }
    assert!(!output.contains("RFC-011"));
    assert!(!output.contains("RFC-012"));
    assert!(output.contains("+2 more\n"));
}

#[test]
fn rfc_section_suppressed_when_no_rfcs() {
    let status = simple(counts(1, 0, 2), empty_backlog(), empty_rfcs(), fresh_boot());
    let output = render_human(&status);
    assert!(!output.contains("rfcs:"));
}

#[test]
fn rfc_section_shows_count_but_no_titles_when_none_open() {
    let rfcs = RfcSummary { open: 0, total: 3, open_titles: vec![] };
    let status = simple(counts(1, 0, 2), empty_backlog(), rfcs, fresh_boot());
    let output = render_human(&status);
    assert!(output.contains("rfcs: 0 open, 3 total\n"));
    assert!(!output.contains("RFC-"));
}

#[test]
fn repo_with_only_open_rfcs_is_still_empty() {
    let rfcs = RfcSummary {
        open: 5,
        total: 5,
        open_titles: vec![RfcTitle { id: "RFC-001".into(), title: "Use Rust?".into() }],
    };
    let status = simple(empty_counts(), empty_backlog(), rfcs, fresh_boot());
    assert!(is_empty(&status));
    assert_eq!(render_human(&status), "No active work.\n");
}

#[test]
fn parse_git_log_parses_the_log_format() {
    let text = "a3f7b2c plan(SL-086): phase sheets — 2 min ago\n\
                deadbee fix: a — b — 3 hours ago\r\n\
                malformed\n\
                beef no separator here\n";
    let commits = parse_git_log(text);
    assert_eq!(commits.len(), 2);
    assert_eq!(commits[0].hash, "a3f7b2c");
    assert_eq!(commits[0].subject, "plan(SL-086): phase sheets");
    assert_eq!(commits[0].relative_time, "2 min ago");
    // the time follows the LAST separator; a `\r\n` ending is stripped.
    assert_eq!(commits[1].hash, "deadbee");
    assert_eq!(commits[1].subject, "fix: a — b");
    assert_eq!(commits[1].relative_time, "3 hours ago");
    assert!(parse_git_log("").is_empty());
}

#[test]
fn boot_line_rounds_minutes_up() {
    let mk = |s: &str, age: u64| BootSection { staleness: s.to_string(), age_seconds: age, commit: "c".to_string() };
    assert_eq!(boot_line(&mk("fresh", 0)), "fresh (0 min ago) from commit c\n");
    assert_eq!(boot_line(&mk("fresh", 1)), "fresh (1 min ago) from commit c\n");
    assert_eq!(boot_line(&mk("fresh", 60)), "fresh (1 min ago) from commit c\n");
    assert_eq!(boot_line(&mk("fresh", 61)), "fresh (2 min ago) from commit c\n");
    assert_eq!(boot_line(&mk("odd", 61)), "missing\n");
}

#[test]
fn full_report_renders_exactly() {
    let mut backlog = SortedMap::new();
    backlog.insert("risk".to_string(), 1_usize);
    let status = assemble_status(
        counts(1, 0, 3),
        backlog,
        empty_next(),
        empty_rfcs(),
        empty_blocked(),
        vec![BlockedItem {
            id: "ISS-004".to_string(),
            title: "t".to_string(),
            blocked_by: vec!["SL-001".to_string(), "SL-002".to_string()],
        }],
        fresh_boot(),
        no_commits(),
    );
    assert_eq!(
        render_human(&status),
        "Work\n  slices: 1 active, 3 total\n  backlog: 1 risk\n\nBlocked backlog\n  ISS-004 blocked by SL-001, SL-002 — t\n\nBoot\n  boot.md fresh (2 min ago) from commit a3f7b2c\n\n"
    );
}
