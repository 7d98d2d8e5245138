//! The `slice list` table: one row per slice with its prefixed id, decorated
//! status, phase rollup, slug and title, over the default columns or those
//! asked for.

use vstd::prelude::*;
use crate::listing::{Meta, canonical_id_spec};
use crate::slice::{canonical_id, decorated_status, decorated_status_spec, phases_cell, phases_cell_spec, rollup_fits};
use crate::state::PhaseRollup;
use crate::table::{render_columns, select_columns, table_spec, grid, first_unknown};
use crate::text::{join_spec, str_eq, views};

verus! {

/// Every column a slice row can show, in their canonical order.
pub const SLICE_COLUMNS: [&'static str; 5] = ["id", "status", "phases", "slug", "title"];

/// The columns shown unless others are asked for: everything but the slug.
pub const SLICE_DEFAULT: [&'static str; 4] = ["id", "status", "phases", "title"];

/// The cell of `column` in a slice's row.
pub open spec fn slice_cell_spec(m: Meta, rollup: Option<PhaseRollup>, column: Seq<char>) -> Seq<char> {
    if column == "id"@ {
        canonical_id_spec("SL"@, m.id as nat)
    } else if column == "status"@ {
        decorated_status_spec(m.status@, rollup)
    } else if column == "phases"@ {
        phases_cell_spec(rollup)
    } else if column == "slug"@ {
        m.slug@
    } else {
        m.title@
    }
}

/// The cells of every row over `columns`.
pub open spec fn slice_grid(rows: Seq<(Meta, Option<PhaseRollup>)>, columns: Seq<Seq<char>>) -> Seq<Seq<Seq<char>>> {
    rows.map_values(|row: (Meta, Option<PhaseRollup>)|
        columns.map_values(|c: Seq<char>| slice_cell_spec(row.0, row.1, c)))
}

/// The cell of `column` in a slice's row.
pub fn slice_cell(m: &Meta, rollup: Option<&PhaseRollup>, column: &str) -> (s: String)
    requires
        rollup_fits(match rollup { Some(r) => Some(*r), None => None }),
    ensures
        s@ == slice_cell_spec(*m, match rollup { Some(r) => Some(*r), None => None }, column@),
{
    if str_eq(column, "id") {
        canonical_id(m.id)
    } else if str_eq(column, "status") {
        decorated_status(m.status.as_str(), rollup)
    } else if str_eq(column, "phases") {
        phases_cell(rollup)
    } else if str_eq(column, "slug") {
        m.slug.clone()
    } else {
        m.title.clone()
    }
}

/// The `slice list` table over the default columns, or over the columns
/// asked for by name (an unknown one is refused, naming the known set); no
/// rows, no table.
pub fn render_slice_list(rows: &Vec<(Meta, Option<PhaseRollup>)>, columns: Option<&Vec<String>>) -> (r: Result<String, String>)
    requires
        forall|i: int| 0 <= i < rows@.len() ==> rollup_fits(#[trigger] rows@[i].1),
    ensures
        ({
            let cols = match columns { Some(req) => views(req@), None => SLICE_DEFAULT@.map_values(|d: &str| d@) };
            let ok = table_spec(cols, slice_grid(rows@, cols));
            match columns {
                None => r matches Ok(t) && t@ == ok,
                Some(req) => match first_unknown(SLICE_COLUMNS@, views(req@)) {
                    None => r matches Ok(t) && t@ == ok,
                    Some(i) => r matches Err(m) && m@ == "unknown column `"@ + req@[i]@ + "` (known: "@
                        + join_spec(SLICE_COLUMNS@.map_values(|k: &str| k@), ", "@) + ")"@,
                },
            }
        }),
{
    let cols = match select_columns(&SLICE_COLUMNS, &SLICE_DEFAULT, columns) {
        Ok(c) => c,
        Err(m) => {
            return Err(m);
        },
    };
    let ghost cv = views(cols@);
    let mut cells: Vec<Vec<String>> = Vec::new();
    let mut i: usize = 0;
    while i < rows.len()
        invariant
            i <= rows@.len(),
            forall|i: int| 0 <= i < rows@.len() ==> rollup_fits(#[trigger] rows@[i].1),
            cv == views(cols@),
            cells@.len() == i,
            forall|k: int| 0 <= k < i ==> (#[trigger] cells@[k])@.len() == cols@.len(),
            grid(cells@) == slice_grid(rows@, cv).take(i as int),
        decreases rows.len() - i,
    {
        let (m, rollup) = &rows[i];
        let mut line: Vec<String> = Vec::new();
        let mut j: usize = 0;
        while j < cols.len()
            invariant
                j <= cols@.len(),
                i < rows@.len(),
                *m == rows@[i as int].0,
                *rollup == rows@[i as int].1,
                rollup_fits(*rollup),
                cv == views(cols@),
                line@.len() == j,
                views(line@) == cv.map_values(|c: Seq<char>| slice_cell_spec(*m, *rollup, c)).take(j as int),
            decreases cols.len() - j,
        {
            let ghost before = views(line@);
            let c = slice_cell(m, rollup.as_ref(), cols[j].as_str());
            line.push(c);
            j = j + 1;
            proof {
                assert(views(line@) =~= before.push(slice_cell_spec(*m, *rollup, cv[j - 1])));
                assert(views(line@) =~= cv.map_values(|c: Seq<char>| slice_cell_spec(*m, *rollup, c)).take(j as int));
            }
        }
        proof {
            assert(cv.map_values(|c: Seq<char>| slice_cell_spec(*m, *rollup, c)).take(cols@.len() as int)
                =~= cv.map_values(|c: Seq<char>| slice_cell_spec(*m, *rollup, c)));
        }
        let ghost before = grid(cells@);
        cells.push(line);
        i = i + 1;
        proof {
            assert(grid(cells@) =~= before.push(slice_grid(rows@, cv)[i - 1]));
            assert(grid(cells@) =~= slice_grid(rows@, cv).take(i as int));
        }
    }
    proof {
        assert(slice_grid(rows@, cv).take(rows@.len() as int) =~= slice_grid(rows@, cv));
    }
    Ok(render_columns(&cols, &cells))
}

} // verus!
