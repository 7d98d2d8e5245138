//! The status transition written into a phase's tracking sheet, made in place
//! on the held document: the status and timestamps, and one appended row of
//! the progress log.

use vstd::prelude::*;
use crate::state::{PhaseStatus, phase_status_text};
use crate::tomldoc::{doc_keys, doc_strings, doc_arrays, doc_table_arrays, doc_contains_key, doc_is_table_array,
    doc_set_empty_table_array, doc_row_count, doc_row_set_str, doc_push_row, doc_get_str, doc_set_str, rows_set};
use crate::selector::Row;

verus! {

/// `started` is stamped: the phase goes in progress and `started` is empty.
pub open spec fn stamps_started(strings: Map<Seq<char>, Seq<char>>, status: PhaseStatus) -> bool {
    status == PhaseStatus::InProgress && strings.contains_key("started"@) && strings["started"@] == Seq::<char>::empty()
}

/// `completed` is stamped: the phase completes and `completed` is empty.
pub open spec fn stamps_completed(strings: Map<Seq<char>, Seq<char>>, status: PhaseStatus) -> bool {
    status == PhaseStatus::Completed && strings.contains_key("completed"@) && strings["completed"@] == Seq::<char>::empty()
}

/// The keys a transition writes a string to: `status` and `last_updated`
/// always, `started` when stamped, `completed` when stamped or cleared.
pub open spec fn sheet_keys_written(strings: Map<Seq<char>, Seq<char>>, status: PhaseStatus) -> Set<Seq<char>> {
    let base = set!["status"@, "last_updated"@];
    let a = if stamps_started(strings, status) { base.insert("started"@) } else { base };
    if status != PhaseStatus::Completed || stamps_completed(strings, status) {
        a.insert("completed"@)
    } else {
        a
    }
}

/// The sheet's strings after a transition: the status and `last_updated`
/// set; `started` stamped with `now` the first time the phase goes in
/// progress; `completed` stamped the first time it completes (a re-complete
/// keeps the first stamp) and cleared on any other status.
pub open spec fn sheet_strings(strings: Map<Seq<char>, Seq<char>>, status: PhaseStatus, now: Seq<char>) -> Map<Seq<char>, Seq<char>> {
    let s1 = strings.insert("status"@, phase_status_text(status)).insert("last_updated"@, now);
    let s2 = if stamps_started(strings, status) { s1.insert("started"@, now) } else { s1 };
    if status == PhaseStatus::Completed {
        if stamps_completed(strings, status) { s2.insert("completed"@, now) } else { s2 }
    } else {
        s2.insert("completed"@, Seq::empty())
    }
}

/// The progress row a transition appends: its time, status and note.
pub open spec fn progress_row(status: PhaseStatus, note: Option<Seq<char>>, now: Seq<char>) -> Row {
    let r = Map::empty().insert("timestamp"@, now).insert("status"@, phase_status_text(status));
    match note {
        Some(n) => r.insert("note"@, n),
        None => r,
    }
}

/// The progress log of a sheet; empty when it has none.
pub open spec fn progress_rows(d: toml_edit::DocumentMut) -> Seq<Row> {
    if doc_table_arrays(d).contains_key("progress"@) {
        doc_table_arrays(d)["progress"@]
    } else {
        Seq::empty()
    }
}

/// The `progress` key holds an item that is not an array of tables.
pub open spec fn progress_malformed(d: toml_edit::DocumentMut) -> bool {
    doc_keys(d).contains("progress"@) && !doc_table_arrays(d).contains_key("progress"@)
}

/// Why a transition was refused.
#[derive(Debug, Clone, Copy, PartialEq, Eq, Structural)]
pub enum SheetError {
    /// The `progress` key holds something other than an array of tables.
    ProgressNotTableArray,
}

impl SheetError {
    /// The message shown for the refusal.
    pub fn message(&self) -> (s: String)
        ensures
            s@ == "`progress` exists but is not an array of tables"@,
    {
        String::from_str("`progress` exists but is not an array of tables")
    }
}

/// The optional note as text.
pub open spec fn note_view(note: Option<&str>) -> Option<Seq<char>> {
    match note {
        Some(n) => Some(n@),
        None => None,
    }
}

/// Write a status transition into a held tracking sheet: set `status` and
/// `last_updated`, stamp `started` once on the first `in_progress`, stamp
/// `completed` once on the first completion and clear it on any other
/// status, and append `{timestamp, status, note}` to the `[[progress]]` log.
/// A `progress` key that holds anything else is refused, the sheet unchanged.
pub fn apply_phase_status(doc: &mut toml_edit::DocumentMut, status: PhaseStatus, note: Option<&str>, now: &str) -> (r: Result<(), SheetError>)
    ensures
        progress_malformed(*old(doc)) ==> r == Err::<(), SheetError>(SheetError::ProgressNotTableArray) && *final(doc) == *old(doc),
        !progress_malformed(*old(doc)) ==> r is Ok,
        !progress_malformed(*old(doc)) ==> doc_keys(*final(doc)) == doc_keys(*old(doc)).union(
            sheet_keys_written(doc_strings(*old(doc)), status)).insert("progress"@),
        !progress_malformed(*old(doc)) ==> doc_strings(*final(doc)) == sheet_strings(doc_strings(*old(doc)), status, now@),
        !progress_malformed(*old(doc)) ==> doc_arrays(*final(doc)) == doc_arrays(*old(doc)).remove_keys(
            sheet_keys_written(doc_strings(*old(doc)), status)),
        !progress_malformed(*old(doc)) ==> doc_table_arrays(*final(doc)) == doc_table_arrays(*old(doc)).remove_keys(
            sheet_keys_written(doc_strings(*old(doc)), status)).insert("progress"@,
            progress_rows(*old(doc)).push(progress_row(status, note_view(note), now@))),
{
    proof {
        reveal_strlit("progress");
        reveal_strlit("status");
        reveal_strlit("last_updated");
        reveal_strlit("started");
        reveal_strlit("completed");
        reveal_strlit("timestamp");
        reveal_strlit("note");
        reveal_strlit("");
    }
    let ghost d0 = *doc;
    let has_progress = doc_contains_key(doc, "progress");
    if has_progress && !doc_is_table_array(doc, "progress") {
        return Err(SheetError::ProgressNotTableArray);
    }
    let ghost strings0 = doc_strings(d0);
    let ghost written = sheet_keys_written(strings0, status);
    let status_text = status.as_str();
    let started = doc_get_str(doc, "started");
    let completed = doc_get_str(doc, "completed");
    let stamp_started = match &started {
        Some(s) => status == PhaseStatus::InProgress && s.as_str().unicode_len() == 0,
        None => false,
    };
    let stamp_completed = match &completed {
        Some(s) => status == PhaseStatus::Completed && s.as_str().unicode_len() == 0,
        None => false,
    };
    proof {
        assert(""@ =~= Seq::<char>::empty());
        if let Some(s) = started {
            assert(s@.len() == 0 ==> s@ =~= Seq::<char>::empty());
        }
        if let Some(s) = completed {
            assert(s@.len() == 0 ==> s@ =~= Seq::<char>::empty());
        }
        assert(stamp_started == stamps_started(strings0, status));
        assert(stamp_completed == stamps_completed(strings0, status));
    }
    doc_set_str(doc, "status", status_text);
    doc_set_str(doc, "last_updated", now);
    if stamp_started {
        doc_set_str(doc, "started", now);
    }
    if status == PhaseStatus::Completed {
        if stamp_completed {
            doc_set_str(doc, "completed", now);
        }
    } else {
        doc_set_str(doc, "completed", "");
    }
    let ghost d1 = *doc;
    proof {
        assert("status"@ != "last_updated"@ && "status"@ != "started"@ && "status"@ != "completed"@) by {
            assert("status"@.len() != "last_updated"@.len());
            assert("status"@.len() != "started"@.len() || "status"@[1] != "started"@[1]);
            assert("status"@.len() != "completed"@.len());
        }
        assert("last_updated"@ != "started"@ && "last_updated"@ != "completed"@ && "started"@ != "completed"@) by {
            assert("last_updated"@.len() != "started"@.len());
            assert("last_updated"@.len() != "completed"@.len());
            assert("started"@.len() != "completed"@.len());
        }
        assert("progress"@ != "status"@ && "progress"@ != "last_updated"@ && "progress"@ != "started"@
            && "progress"@ != "completed"@) by {
            assert("progress"@[0] != "status"@[0]);
            assert("progress"@[0] != "last_updated"@[0]);
            assert("progress"@[0] != "started"@[0]);
            assert("progress"@[0] != "completed"@[0]);
        }
        assert(doc_strings(d1) =~= sheet_strings(strings0, status, now@));
        assert(doc_keys(d1) =~= doc_keys(d0).union(written));
        assert(doc_arrays(d1) =~= doc_arrays(d0).remove_keys(written));
        assert(doc_table_arrays(d1) =~= doc_table_arrays(d0).remove_keys(written));
    }
    if !has_progress {
        doc_set_empty_table_array(doc, "progress");
    }
    let ghost d2 = *doc;
    let ghost rows = progress_rows(d0);
    proof {
        assert(doc_table_arrays(d2).contains_key("progress"@));
        assert(doc_table_arrays(d2)["progress"@] == rows);
        assert(doc_table_arrays(d2) =~= doc_table_arrays(d0).remove_keys(written).insert("progress"@, rows));
        assert(doc_strings(d2) =~= doc_strings(d1));
        assert(doc_arrays(d2) =~= doc_arrays(d1));
        assert(doc_keys(d2) =~= doc_keys(d0).union(written).insert("progress"@));
    }
    let n = doc_row_count(doc, "progress");
    doc_push_row(doc, "progress");
    doc_row_set_str(doc, "progress", n, "timestamp", now);
    doc_row_set_str(doc, "progress", n, "status", status_text);
    let ghost r2 = rows_set(rows_set(rows.push(Map::empty()), n as int, "timestamp"@, now@), n as int, "status"@, phase_status_text(status));
    match note {
        Some(text) => {
            doc_row_set_str(doc, "progress", n, "note", text);
            proof {
                assert(rows_set(r2, n as int, "note"@, text@) =~= rows.push(progress_row(status, note_view(note), now@)));
            }
        },
        None => {
            proof {
                assert(r2 =~= rows.push(progress_row(status, note_view(note), now@)));
            }
        },
    }
    proof {
        assert(doc_table_arrays(*doc) =~= doc_table_arrays(d0).remove_keys(written).insert("progress"@,
            rows.push(progress_row(status, note_view(note), now@))));
    }
    Ok(())
}

/// The key names a transition writes are distinct.
proof fn lemma_sheet_keys_distinct()
    ensures
        "status"@ != "last_updated"@,
        "status"@ != "started"@,
        "status"@ != "completed"@,
        "last_updated"@ != "started"@,
        "last_updated"@ != "completed"@,
        "started"@ != "completed"@,
{
    reveal_strlit("status");
    reveal_strlit("last_updated");
    reveal_strlit("started");
    reveal_strlit("completed");
    assert("status"@.len() != "last_updated"@.len());
    assert("status"@.len() != "started"@.len());
    assert("status"@.len() != "completed"@.len());
    assert("last_updated"@.len() != "started"@.len());
    assert("last_updated"@.len() != "completed"@.len());
    assert("started"@.len() != "completed"@.len());
}

/// On a sheet that has a `completed` entry, a transition stamped with a
/// non-empty time leaves `completed` non-empty exactly when the phase is
/// completed: a completion stamps it (or keeps its first stamp), any other
/// status clears it.
pub proof fn lemma_completed_stamp_iff_completed(strings: Map<Seq<char>, Seq<char>>, status: PhaseStatus, now: Seq<char>)
    requires
        strings.contains_key("completed"@),
        now.len() > 0,
    ensures
        sheet_strings(strings, status, now).contains_key("completed"@),
        sheet_strings(strings, status, now)["completed"@].len() > 0 <==> status == PhaseStatus::Completed,
{
    lemma_sheet_keys_distinct();
    if status == PhaseStatus::Completed && !stamps_completed(strings, status) {
        assert(strings["completed"@] != Seq::<char>::empty());
        assert(strings["completed"@].len() > 0) by {
            if strings["completed"@].len() == 0 {
                assert(strings["completed"@] =~= Seq::<char>::empty());
            }
        }
    }
}

/// `started` is stamped once: a second `in_progress` transition keeps the
/// time of the first.
pub proof fn lemma_started_stamped_once(strings: Map<Seq<char>, Seq<char>>, first: Seq<char>, second: Seq<char>)
    requires
        strings.contains_key("started"@),
        strings["started"@] == Seq::<char>::empty(),
        first.len() > 0,
    ensures
        sheet_strings(sheet_strings(strings, PhaseStatus::InProgress, first), PhaseStatus::InProgress, second)["started"@] == first,
{
    lemma_sheet_keys_distinct();
    let s1 = sheet_strings(strings, PhaseStatus::InProgress, first);
    assert(s1["started"@] == first);
    assert(!stamps_started(s1, PhaseStatus::InProgress)) by {
        if first =~= Seq::<char>::empty() {
        }
    }
}

} // verus!
