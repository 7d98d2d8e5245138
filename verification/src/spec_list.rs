//! The `spec list` table: a labelled block per subtype (product, then tech),
//! each a table over the default columns or those asked for; a subtype with
//! no rows has no block.

use vstd::prelude::*;
use crate::listing::{canonical_id_spec, Meta};
use crate::spec::{subtype_prefix, SpecListRow, SpecSubtype};
use crate::table::{render_columns, select_columns, table_spec, grid, first_unknown};
use crate::text::{decimal, decimal_string, join_spec, str_eq, views};

verus! {

/// Every column a spec row can show, in their canonical order.
pub const SPEC_COLUMNS: [&'static str; 5] = ["id", "status", "slug", "title", "members"];

/// The columns shown unless others are asked for: the title, not the slug.
pub const SPEC_DEFAULT: [&'static str; 4] = ["id", "status", "title", "members"];

/// The header of a column: its name, but `#members` for `members`.
pub open spec fn spec_header_spec(name: Seq<char>) -> Seq<char> {
    if name == "members"@ { "#members"@ } else { name }
}

/// The cell of `column` in a spec's row.
pub open spec fn spec_cell_spec(row: SpecListRow, column: Seq<char>) -> Seq<char> {
    if column == "id"@ {
        row.id@
    } else if column == "status"@ {
        row.status@
    } else if column == "slug"@ {
        row.slug@
    } else if column == "title"@ {
        row.title@
    } else {
        decimal(row.members as nat)
    }
}

/// The cells of every row over `columns`.
pub open spec fn spec_grid(rows: Seq<SpecListRow>, columns: Seq<Seq<char>>) -> Seq<Seq<Seq<char>>> {
    rows.map_values(|row: SpecListRow| columns.map_values(|c: Seq<char>| spec_cell_spec(row, c)))
}

/// One subtype's block: its label line and its table; nothing without rows.
pub open spec fn spec_block(label: Seq<char>, rows: Seq<SpecListRow>, columns: Seq<Seq<char>>) -> Seq<char> {
    if rows.len() == 0 {
        Seq::empty()
    } else {
        label + "\n"@ + table_spec(columns.map_values(|c: Seq<char>| spec_header_spec(c)), spec_grid(rows, columns))
    }
}

/// The header of a column.
fn spec_header(name: &str) -> (s: String)
    ensures
        s@ == spec_header_spec(name@),
{
    if str_eq(name, "members") {
        String::from_str("#members")
    } else {
        String::from_str(name)
    }
}

/// The cell of `column` in a spec's row.
fn spec_cell(row: &SpecListRow, column: &str) -> (s: String)
    ensures
        s@ == spec_cell_spec(*row, column@),
{
    if str_eq(column, "id") {
        row.id.clone()
    } else if str_eq(column, "status") {
        row.status.clone()
    } else if str_eq(column, "slug") {
        row.slug.clone()
    } else if str_eq(column, "title") {
        row.title.clone()
    } else {
        decimal_string(row.members as u64)
    }
}

/// One subtype's block.
fn block_text(label: &str, rows: &Vec<SpecListRow>, cols: &Vec<String>) -> (s: String)
    ensures
        s@ == spec_block(label@, rows@, views(cols@)),
{
    if rows.len() == 0 {
        return String::new();
    }
    let ghost cv = views(cols@);
    let mut header: Vec<String> = Vec::new();
    let mut j: usize = 0;
    while j < cols.len()
        invariant
            j <= cols@.len(),
            cv == views(cols@),
            views(header@) == cv.map_values(|c: Seq<char>| spec_header_spec(c)).take(j as int),
        decreases cols.len() - j,
    {
        let ghost before = views(header@);
        header.push(spec_header(cols[j].as_str()));
        j = j + 1;
        proof {
            assert(views(header@) =~= before.push(spec_header_spec(cv[j - 1])));
            assert(views(header@) =~= cv.map_values(|c: Seq<char>| spec_header_spec(c)).take(j as int));
        }
    }
    proof {
        assert(cv.map_values(|c: Seq<char>| spec_header_spec(c)).take(cols@.len() as int)
            =~= cv.map_values(|c: Seq<char>| spec_header_spec(c)));
    }
    let mut cells: Vec<Vec<String>> = Vec::new();
    let mut i: usize = 0;
    while i < rows.len()
        invariant
            i <= rows@.len(),
            cv == views(cols@),
            header@.len() == cols@.len(),
            cells@.len() == i,
            forall|k: int| 0 <= k < i ==> (#[trigger] cells@[k])@.len() == header@.len(),
            grid(cells@) == spec_grid(rows@, cv).take(i as int),
        decreases rows.len() - i,
    {
        let row = &rows[i];
        let mut line: Vec<String> = Vec::new();
        let mut j: usize = 0;
        while j < cols.len()
            invariant
                j <= cols@.len(),
                i < rows@.len(),
                *row == rows@[i as int],
                cv == views(cols@),
                line@.len() == j,
                views(line@) == cv.map_values(|c: Seq<char>| spec_cell_spec(*row, c)).take(j as int),
            decreases cols.len() - j,
        {
            let ghost before = views(line@);
            line.push(spec_cell(row, cols[j].as_str()));
            j = j + 1;
            proof {
                assert(views(line@) =~= before.push(spec_cell_spec(*row, cv[j - 1])));
                assert(views(line@) =~= cv.map_values(|c: Seq<char>| spec_cell_spec(*row, c)).take(j as int));
            }
        }
        proof {
            assert(cv.map_values(|c: Seq<char>| spec_cell_spec(*row, c)).take(cols@.len() as int)
                =~= cv.map_values(|c: Seq<char>| spec_cell_spec(*row, c)));
        }
        let ghost before = grid(cells@);
        cells.push(line);
        i = i + 1;
        proof {
            assert(grid(cells@) =~= before.push(spec_grid(rows@, cv)[i - 1]));
            assert(grid(cells@) =~= spec_grid(rows@, cv).take(i as int));
        }
    }
    proof {
        assert(spec_grid(rows@, cv).take(rows@.len() as int) =~= spec_grid(rows@, cv));
    }
    let mut s = String::from_str(label);
    s.append("\n");
    let t = render_columns(&header, &cells);
    s.append(t.as_str());
    s
}

/// The `spec list` table: the product block, then the tech block, over the
/// default columns or those asked for by name (an unknown one is refused,
/// naming the known set).
pub fn render_spec_list(product: &Vec<SpecListRow>, tech: &Vec<SpecListRow>, columns: Option<&Vec<String>>) -> (r: Result<String, String>)
    ensures
        ({
            let cols = match columns { Some(req) => views(req@), None => SPEC_DEFAULT@.map_values(|d: &str| d@) };
            let ok = spec_block("product"@, product@, cols) + spec_block("tech"@, tech@, cols);
            match columns {
                None => r matches Ok(t) && t@ == ok,
                Some(req) => match first_unknown(SPEC_COLUMNS@, views(req@)) {
                    None => r matches Ok(t) && t@ == ok,
                    Some(i) => r matches Err(m) && m@ == "unknown column `"@ + req@[i]@ + "` (known: "@
                        + join_spec(SPEC_COLUMNS@.map_values(|k: &str| k@), ", "@) + ")"@,
                },
            }
        }),
{
    let cols = match select_columns(&SPEC_COLUMNS, &SPEC_DEFAULT, columns) {
        Ok(c) => c,
        Err(m) => {
            return Err(m);
        },
    };
    let mut out = block_text("product", product, &cols);
    let t = block_text("tech", tech, &cols);
    out.append(t.as_str());
    Ok(out)
}

/// One spec as the JSON list carries it: its prefixed id, its subtype's
/// label, its status and slug, and how many requirements it members.
#[derive(Debug, Clone, PartialEq, Eq)]
pub struct SpecJsonRow {
    pub id: String,
    pub subtype: &'static str,
    pub status: String,
    pub slug: String,
    pub members: usize,
}

/// The JSON rows of one subtype's specs, in order; both subtypes' rows go
/// into one list, each labelled with its subtype.
pub fn spec_json_rows(subtype: SpecSubtype, rows: &Vec<(Meta, usize)>) -> (out: Vec<SpecJsonRow>)
    ensures
        out@.len() == rows@.len(),
        forall|i: int| 0 <= i < rows@.len() ==> {
            &&& (#[trigger] out@[i]).id@ == canonical_id_spec(subtype_prefix(subtype), rows@[i].0.id as nat)
            &&& out@[i].subtype@ == (match subtype {
                SpecSubtype::Product => "product"@,
                SpecSubtype::Tech => "tech"@,
            })
            &&& out@[i].status@ == rows@[i].0.status@
            &&& out@[i].slug@ == rows@[i].0.slug@
            &&& out@[i].members == rows@[i].1
        },
{
    let mut out: Vec<SpecJsonRow> = Vec::new();
    let mut i: usize = 0;
    while i < rows.len()
        invariant
            i <= rows@.len(),
            out@.len() == i,
            forall|k: int| 0 <= k < i ==> {
                &&& (#[trigger] out@[k]).id@ == canonical_id_spec(subtype_prefix(subtype), rows@[k].0.id as nat)
                &&& out@[k].subtype@ == (match subtype {
                    SpecSubtype::Product => "product"@,
                    SpecSubtype::Tech => "tech"@,
                })
                &&& out@[k].status@ == rows@[k].0.status@
                &&& out@[k].slug@ == rows@[k].0.slug@
                &&& out@[k].members == rows@[k].1
            },
        decreases rows.len() - i,
    {
        let (m, count) = &rows[i];
        out.push(SpecJsonRow {
            id: subtype.canonical_id(m.id),
            subtype: subtype.label(),
            status: m.status.clone(),
            slug: m.slug.clone(),
            members: *count,
        });
        i = i + 1;
    }
    out
}

} // verus!
