//! The `spec req list` roster: one row per requirement a spec members, with
//! the membership label and the requirement's own kind and status. A member
//! whose requirement cannot be loaded is kept, with the load error in place of
//! the cells it could not read.

use vstd::prelude::*;
use crate::requirement::{req_kind_text, req_status_text, ReqKind, ReqStatus};
use crate::table::{first_unknown, grid, render_columns, select_columns, table_spec};
use crate::listing::{all_known, hidden_in, keeps, refuses_first_unknown, status_selected, validate_statuses};
use crate::text::{join_spec, str_eq, views};

verus! {

/// Every column a roster row can show, in their canonical order.
pub const REQ_COLUMNS: [&'static str; 4] = ["id", "label", "kind", "status"];

/// The columns shown unless others are asked for: all of them.
pub const REQ_DEFAULT: [&'static str; 4] = ["id", "label", "kind", "status"];

/// One roster row, as the table shows it.
#[derive(Debug, Clone, PartialEq, Eq)]
pub struct ReqListRow {
    pub id: String,
    pub label: String,
    pub kind: String,
    pub status: String,
}

/// One roster row as its JSON form carries it: a member whose requirement
/// could not be loaded has no kind or status, is marked dangling, and carries
/// the load error.
#[derive(Debug, Clone, PartialEq, Eq)]
pub struct ReqJsonRow {
    pub id: String,
    pub label: String,
    pub kind: Option<String>,
    pub status: Option<String>,
    pub dangling: bool,
    pub load_error: Option<String>,
}

/// The note that stands in a cell a load error left unread.
pub open spec fn load_error_note(error: Seq<char>) -> Seq<char> {
    "<load error: "@ + error + ">"@
}

/// The row of a member whose requirement loaded as `(kind, status)`, or whose
/// load failed with an error.
pub open spec fn roster_row_spec(requirement: Seq<char>, label: Seq<char>, loaded: Result<(ReqKind, ReqStatus), Seq<char>>) -> (Seq<char>, Seq<char>, Seq<char>, Seq<char>) {
    match loaded {
        Ok((k, s)) => (requirement, label, req_kind_text(k), req_status_text(s)),
        Err(e) => (requirement, label, load_error_note(e), load_error_note(e)),
    }
}

/// A row's four cells, in its field order.
pub open spec fn row_view(row: ReqListRow) -> (Seq<char>, Seq<char>, Seq<char>, Seq<char>) {
    (row.id@, row.label@, row.kind@, row.status@)
}

/// The row of one member: its requirement id and membership label, then the
/// requirement's kind and status, or the load error in both cells.
pub fn roster_row(requirement: &str, label: &str, loaded: &Result<(ReqKind, ReqStatus), String>) -> (row: ReqListRow)
    ensures
        row_view(row) == roster_row_spec(requirement@, label@, match loaded {
            Ok(p) => Ok(*p),
            Err(e) => Err(e@),
        }),
{
    match loaded {
        Ok((k, s)) => ReqListRow {
            id: String::from_str(requirement),
            label: String::from_str(label),
            kind: String::from_str(k.as_str()),
            status: String::from_str(s.as_str()),
        },
        Err(e) => {
            let mut note = String::from_str("<load error: ");
            note.append(e.as_str());
            note.append(">");
            ReqListRow {
                id: String::from_str(requirement),
                label: String::from_str(label),
                kind: note.clone(),
                status: note,
            }
        },
    }
}

/// A copy of `row`, equal to it field by field.
fn copy_row(row: &ReqListRow) -> (r: ReqListRow)
    ensures
        r == *row,
{
    ReqListRow { id: row.id.clone(), label: row.label.clone(), kind: row.kind.clone(), status: row.status.clone() }
}

/// The rows that stay: every dangling row, and each resolved row whose keep
/// flag is set, in their order.
pub open spec fn kept_spec(rows: Seq<(ReqListRow, bool)>, keep: Seq<bool>) -> Seq<ReqListRow>
    decreases rows.len(),
{
    if rows.len() == 0 {
        Seq::empty()
    } else {
        let before = kept_spec(rows.drop_last(), keep.take(rows.len() - 1));
        let last = rows.last();
        if !last.1 || keep[rows.len() - 1] {
            before.push(last.0)
        } else {
            before
        }
    }
}

/// Filters the roster: `rows` pairs each row with whether its requirement was
/// loaded, `keep` says of each whether the list filter keeps it. A dangling row
/// stays whatever its flag: it has no authored fields for a filter to judge.
pub fn kept_roster(rows: &Vec<(ReqListRow, bool)>, keep: &Vec<bool>) -> (out: Vec<ReqListRow>)
    requires
        keep@.len() == rows@.len(),
    ensures
        out@ == kept_spec(rows@, keep@),
{
    let mut out: Vec<ReqListRow> = Vec::new();
    let mut i: usize = 0;
    while i < rows.len()
        invariant
            i <= rows@.len(),
            keep@.len() == rows@.len(),
            out@ == kept_spec(rows@.take(i as int), keep@.take(i as int)),
        decreases rows.len() - i,
    {
        proof {
            let t = rows@.take(i as int + 1);
            assert(t.drop_last() =~= rows@.take(i as int));
            assert(keep@.take(i as int + 1).take(i as int) =~= keep@.take(i as int));
        }
        let (row, resolved) = &rows[i];
        if !*resolved || keep[i] {
            out.push(copy_row(row));
        }
        i = i + 1;
    }
    proof {
        assert(rows@.take(rows@.len() as int) =~= rows@);
        assert(keep@.take(keep@.len() as int) =~= keep@);
    }
    out
}

/// Law: a dangling row survives the roster filter, whatever the filter says.
pub proof fn lemma_dangling_rows_survive(rows: Seq<(ReqListRow, bool)>, keep: Seq<bool>, i: int)
    requires
        keep.len() == rows.len(),
        0 <= i < rows.len(),
        !rows[i].1,
    ensures
        kept_spec(rows, keep).contains(rows[i].0),
    decreases rows.len(),
{
    if i == rows.len() - 1 {
        let before = kept_spec(rows.drop_last(), keep.take(rows.len() - 1));
        assert(kept_spec(rows, keep) == before.push(rows[i].0));
        assert(kept_spec(rows, keep)[before.len() as int] == rows[i].0);
    } else {
        let r = rows.drop_last();
        let k = keep.take(rows.len() - 1);
        assert(r[i] == rows[i]);
        lemma_dangling_rows_survive(r, k, i);
        let before = kept_spec(r, k);
        let j = choose|j: int| 0 <= j < before.len() && before[j] == rows[i].0;
        let last = rows.last();
        if !last.1 || keep[rows.len() - 1] {
            assert(kept_spec(rows, keep)[j] == rows[i].0);
        }
    }
}

/// The JSON form of a roster row: a resolved row carries its kind and status;
/// a dangling one is marked, with the load note its cells held.
pub fn req_json_row(row: &ReqListRow, resolved: bool) -> (j: ReqJsonRow)
    ensures
        j.id@ == row.id@,
        j.label@ == row.label@,
        j.dangling == !resolved,
        resolved ==> (j.kind matches Some(k) && k@ == row.kind@) && (j.status matches Some(s) && s@ == row.status@)
            && j.load_error is None,
        !resolved ==> j.kind is None && j.status is None && (j.load_error matches Some(e) && e@ == row.kind@),
{
    if resolved {
        ReqJsonRow {
            id: row.id.clone(),
            label: row.label.clone(),
            kind: Some(row.kind.clone()),
            status: Some(row.status.clone()),
            dangling: false,
            load_error: None,
        }
    } else {
        ReqJsonRow {
            id: row.id.clone(),
            label: row.label.clone(),
            kind: None,
            status: None,
            dangling: true,
            load_error: Some(row.kind.clone()),
        }
    }
}

/// The cell of `column` in a roster row.
pub open spec fn req_cell_spec(row: ReqListRow, column: Seq<char>) -> Seq<char> {
    if column == "id"@ {
        row.id@
    } else if column == "label"@ {
        row.label@
    } else if column == "kind"@ {
        row.kind@
    } else {
        row.status@
    }
}

/// The cells of every row over `columns`.
pub open spec fn req_grid(rows: Seq<ReqListRow>, columns: Seq<Seq<char>>) -> Seq<Seq<Seq<char>>> {
    rows.map_values(|row: ReqListRow| columns.map_values(|c: Seq<char>| req_cell_spec(row, c)))
}

/// The cell of `column` in a roster row.
fn req_cell(row: &ReqListRow, column: &str) -> (s: String)
    ensures
        s@ == req_cell_spec(*row, column@),
{
    if str_eq(column, "id") {
        row.id.clone()
    } else if str_eq(column, "label") {
        row.label.clone()
    } else if str_eq(column, "kind") {
        row.kind.clone()
    } else {
        row.status.clone()
    }
}

/// The roster table over the default columns or those asked for by name (an
/// unknown one is refused, naming the known set); no rows, no table.
pub fn render_req_list(rows: &Vec<ReqListRow>, columns: Option<&Vec<String>>) -> (r: Result<String, String>)
    ensures
        ({
            let cols = match columns { Some(req) => views(req@), None => REQ_DEFAULT@.map_values(|d: &str| d@) };
            let ok = table_spec(cols, req_grid(rows@, cols));
            match columns {
                None => r matches Ok(t) && t@ == ok,
                Some(req) => match first_unknown(REQ_COLUMNS@, views(req@)) {
                    None => r matches Ok(t) && t@ == ok,
                    Some(i) => r matches Err(m) && m@ == "unknown column `"@ + req@[i]@ + "` (known: "@
                        + join_spec(REQ_COLUMNS@.map_values(|k: &str| k@), ", "@) + ")"@,
                },
            }
        }),
{
    let cols = match select_columns(&REQ_COLUMNS, &REQ_DEFAULT, columns) {
        Ok(c) => c,
        Err(m) => {
            return Err(m);
        },
    };
    let ghost cv = views(cols@);
    let mut cells: Vec<Vec<String>> = Vec::new();
    let mut i: usize = 0;
    while i < rows.len()
        invariant
            i <= rows@.len(),
            cv == views(cols@),
            cells@.len() == i,
            forall|k: int| 0 <= k < i ==> (#[trigger] cells@[k])@.len() == cols@.len(),
            grid(cells@) == req_grid(rows@, cv).take(i as int),
        decreases rows.len() - i,
    {
        let row = &rows[i];
        let mut line: Vec<String> = Vec::new();
        let mut j: usize = 0;
        while j < cols.len()
            invariant
                j <= cols@.len(),
                i < rows@.len(),
                *row == rows@[i as int],
                cv == views(cols@),
                line@.len() == j,
                views(line@) == cv.map_values(|c: Seq<char>| req_cell_spec(*row, c)).take(j as int),
            decreases cols.len() - j,
        {
            let ghost before = views(line@);
            line.push(req_cell(row, cols[j].as_str()));
            j = j + 1;
            proof {
                assert(views(line@) =~= before.push(req_cell_spec(*row, cv[j - 1])));
                assert(views(line@) =~= cv.map_values(|c: Seq<char>| req_cell_spec(*row, c)).take(j as int));
            }
        }
        proof {
            assert(cv.map_values(|c: Seq<char>| req_cell_spec(*row, c)).take(cols@.len() as int)
                =~= cv.map_values(|c: Seq<char>| req_cell_spec(*row, c)));
        }
        let ghost before = grid(cells@);
        cells.push(line);
        i = i + 1;
        proof {
            assert(grid(cells@) =~= before.push(req_grid(rows@, cv)[i - 1]));
            assert(grid(cells@) =~= req_grid(rows@, cv).take(i as int));
        }
    }
    proof {
        assert(req_grid(rows@, cv).take(rows@.len() as int) =~= req_grid(rows@, cv));
    }
    Ok(render_columns(&cols, &cells))
}

/// The keep flag of each roster row: whether the list's status selection
/// keeps its status (the roster hides what a spec list hides).
pub open spec fn roster_keep(rows: Seq<(ReqListRow, bool)>, hide: Seq<Seq<char>>, all: bool, statuses: Seq<Seq<char>>) -> Seq<bool> {
    rows.map_values(|r: (ReqListRow, bool)| keeps(r.0.status@, hide, all, statuses))
}

/// The `spec req list` table: `--status` is checked against the requirement
/// vocabulary `known` first (an unknown value is refused, naming it and the
/// known set); then the rows the status selection keeps, and every dangling
/// row, are laid out over the default columns or those asked for.
pub fn req_list_table(rows: &Vec<(ReqListRow, bool)>, known: &[&str], hide: &[&str], statuses: &Vec<String>, all: bool,
    columns: Option<&Vec<String>>) -> (r: Result<String, String>)
    ensures
        !all_known(views(statuses@), known@.map_values(|k: &str| k@)) ==> (r matches Err(m)
            && refuses_first_unknown(views(statuses@), known@.map_values(|k: &str| k@), m@)),
        all_known(views(statuses@), known@.map_values(|k: &str| k@)) ==> ({
            let kept = kept_spec(rows@, roster_keep(rows@, hide@.map_values(|h: &str| h@), all, views(statuses@)));
            let cols = match columns { Some(req) => views(req@), None => REQ_DEFAULT@.map_values(|d: &str| d@) };
            match columns {
                Some(req) if first_unknown(REQ_COLUMNS@, views(req@)) is Some => r is Err,
                _ => r matches Ok(t) && t@ == table_spec(cols, req_grid(kept, cols)),
            }
        }),
{
    match validate_statuses(statuses, known) {
        Err(m) => {
            return Err(m);
        },
        Ok(()) => {},
    }
    let ghost hv = hide@.map_values(|h: &str| h@);
    let mut keep: Vec<bool> = Vec::new();
    let mut i: usize = 0;
    while i < rows.len()
        invariant
            i <= rows@.len(),
            hv == hide@.map_values(|h: &str| h@),
            keep@ == roster_keep(rows@, hv, all, views(statuses@)).take(i as int),
        decreases rows.len() - i,
    {
        let status = rows[i].0.status.as_str();
        let hidden = hidden_in(status, hide);
        let k = status_selected(status, hidden, all, statuses);
        keep.push(k);
        i = i + 1;
        assert(keep@ =~= roster_keep(rows@, hv, all, views(statuses@)).take(i as int));
    }
    assert(roster_keep(rows@, hv, all, views(statuses@)).take(rows@.len() as int) =~= roster_keep(rows@, hv, all, views(statuses@)));
    let kept = kept_roster(rows, &keep);
    render_req_list(&kept, columns)
}

} // verus!
