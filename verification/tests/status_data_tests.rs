use doctrine::listing::Meta;
use doctrine::status::BlockedItem;
use doctrine::status_data::{blocked_section, count_by_kind, rfc_summary, slice_counts};

fn meta(id: u32, status: &str, title: &str) -> Meta {
    Meta { id, slug: format!("s{id}"), title: title.to_string(), status: status.to_string(), tags: Vec::new() }
}

#[test]
fn slice_counts_leave_out_done_and_abandoned() {
    let statuses: Vec<String> = ["started", "done", "abandoned", "proposed", "bogus"].iter().map(|s| s.to_string()).collect();
    let c = slice_counts(&statuses, 2);
    assert_eq!((c.active, c.blocked, c.total), (3, 2, 5));
}

#[test]
fn backlog_kinds_are_tallied_in_ascending_order() {
    let kinds: Vec<String> = ["issue", "idea", "issue", "risk", "issue"].iter().map(|s| s.to_string()).collect();
    let m = count_by_kind(&kinds);
    let pairs: Vec<(String, usize)> = (0..m.len()).map(|i| (m.key_at(i).clone(), *m.value_at(i))).collect();
    assert_eq!(pairs, vec![("idea".to_string(), 1), ("issue".to_string(), 3), ("risk".to_string(), 1)]);
    assert_eq!(count_by_kind(&Vec::new()).len(), 0);
}

#[test]
fn rfc_summary_lists_open_rfcs_most_recent_first() {
    let metas = vec![
        meta(1, "open", "First"),
        meta(2, "accepted", "Second"),
        meta(12, "open", "Twelfth"),
        meta(5, "open", "Fifth"),
    ];
    let s = rfc_summary(&metas);
    assert_eq!((s.open, s.total), (3, 4));
    let titles: Vec<(String, String)> = s.open_titles.iter().map(|t| (t.id.clone(), t.title.clone())).collect();
    assert_eq!(
        titles,
        vec![
            ("RFC-012".to_string(), "Twelfth".to_string()),
            ("RFC-005".to_string(), "Fifth".to_string()),
            ("RFC-001".to_string(), "First".to_string()),
        ]
    );
}

#[test]
fn rfc_summary_shows_at_most_ten_titles() {
    let metas: Vec<Meta> = (1..=13).map(|i| meta(i, "open", "T")).collect();
    let s = rfc_summary(&metas);
    assert_eq!(s.open, 13);
    assert_eq!(s.open_titles.len(), 10);
    assert_eq!(s.open_titles[0].id, "RFC-013");
    assert_eq!(s.open_titles[9].id, "RFC-004");
}

#[test]
fn blocked_items_are_sorted_by_id_and_cut_at_five() {
    let item = |id: &str| BlockedItem { id: id.to_string(), title: format!("t{id}"), blocked_by: vec!["SL-001".to_string()] };
    let items: Vec<BlockedItem> = ["SL-009", "SL-002", "SL-007", "SL-001", "SL-004", "SL-003"].iter().map(|i| item(i)).collect();
    let (shown, count) = blocked_section(items);
    assert_eq!(count, 6);
    let ids: Vec<&str> = shown.iter().map(|b| b.id.as_str()).collect();
    assert_eq!(ids, vec!["SL-001", "SL-002", "SL-003", "SL-004", "SL-007"]);
    assert_eq!(shown[0].title, "tSL-001");
}
