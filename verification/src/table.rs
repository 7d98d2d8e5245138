//! The list table: a header line and one line per row, every column but the
//! last padded to its widest cell, columns separated by ` │ `; no rows, no
//! table. And the choice of columns: the default set, or the ones asked for
//! by name.

use vstd::prelude::*;
use crate::text::{views, join_spec, concat_all, str_eq};

verus! {

/// The cells of each row.
pub open spec fn grid(rows: Seq<Vec<String>>) -> Seq<Seq<Seq<char>>> {
    rows.map_values(|r: Vec<String>| views(r@))
}

/// The width of column `j`: its widest cell, the header included.
pub open spec fn col_width(header: Seq<Seq<char>>, rows: Seq<Seq<Seq<char>>>, j: int) -> nat
    decreases rows.len(),
{
    if rows.len() == 0 {
        header[j].len()
    } else {
        let w = col_width(header, rows.drop_last(), j);
        let c = rows.last()[j].len();
        if c > w { c } else { w }
    }
}

/// `n` spaces.
pub open spec fn spaces(n: nat) -> Seq<char> {
    Seq::new(n, |i: int| ' ')
}

/// `s` padded with spaces to width `w`.
pub open spec fn padded(s: Seq<char>, w: nat) -> Seq<char> {
    if s.len() >= w { s } else { s + spaces((w - s.len()) as nat) }
}

/// The cells of a line as written: each padded to its column's width but the
/// last.
pub open spec fn line_cells(cells: Seq<Seq<char>>, widths: Seq<nat>) -> Seq<Seq<char>> {
    Seq::new(cells.len(), |j: int| if j + 1 < cells.len() { padded(cells[j], widths[j]) } else { cells[j] })
}

/// One line of the table.
pub open spec fn table_line(cells: Seq<Seq<char>>, widths: Seq<nat>) -> Seq<char> {
    join_spec(line_cells(cells, widths), " │ "@) + "\n"@
}

/// The column widths.
pub open spec fn widths_of(header: Seq<Seq<char>>, rows: Seq<Seq<Seq<char>>>) -> Seq<nat> {
    Seq::new(header.len(), |j: int| col_width(header, rows, j))
}

/// The table: empty without rows, else the header line then each row's line.
pub open spec fn table_spec(header: Seq<Seq<char>>, rows: Seq<Seq<Seq<char>>>) -> Seq<char> {
    if rows.len() == 0 {
        Seq::empty()
    } else {
        let w = widths_of(header, rows);
        table_line(header, w) + concat_all(rows.map_values(|r: Seq<Seq<char>>| table_line(r, w)))
    }
}

/// The width of column `j`.
fn column_width(header: &Vec<String>, rows: &Vec<Vec<String>>, j: usize) -> (w: usize)
    requires
        j < header@.len(),
        forall|i: int| 0 <= i < rows@.len() ==> (#[trigger] rows@[i])@.len() == header@.len(),
    ensures
        w == col_width(views(header@), grid(rows@), j as int),
{
    let mut w = header[j].as_str().unicode_len();
    let mut i: usize = 0;
    proof {
        assert(grid(rows@).take(0) =~= Seq::<Seq<Seq<char>>>::empty());
    }
    while i < rows.len()
        invariant
            i <= rows@.len(),
            j < header@.len(),
            forall|i: int| 0 <= i < rows@.len() ==> (#[trigger] rows@[i])@.len() == header@.len(),
            w == col_width(views(header@), grid(rows@).take(i as int), j as int),
        decreases rows.len() - i,
    {
        let c = rows[i][j].as_str().unicode_len();
        proof {
            let g = grid(rows@).take(i + 1);
            assert(g.drop_last() =~= grid(rows@).take(i as int));
            assert(g.last()[j as int] == rows@[i as int]@[j as int]@);
        }
        if c > w {
            w = c;
        }
        i = i + 1;
    }
    proof {
        assert(grid(rows@).take(rows@.len() as int) =~= grid(rows@));
    }
    w
}

/// `s` padded on the right with spaces to `w` characters, as `{:<w}` pads.
pub fn pad_right(s: &str, w: usize) -> (r: String)
    ensures
        r@ == padded(s@, w as nat),
{
    let mut r = String::from_str(s);
    let n = s.unicode_len();
    let mut k = n;
    while k < w
        invariant
            n == s@.len(),
            n <= k,
            k <= w || k == n,
            r@ == s@ + spaces((k - n) as nat),
        decreases w - k,
    {
        let ghost before = r@;
        r.append(" ");
        k = k + 1;
        proof {
            reveal_strlit(" ");
            assert(spaces((k - n) as nat) =~= spaces((k - 1 - n) as nat).push(' '));
            assert(r@ =~= s@ + spaces((k - n) as nat));
        }
    }
    proof {
        if n >= w {
            assert(r@ =~= s@);
        }
    }
    r
}

/// One line of the table.
fn line_text(cells: &Vec<String>, widths: &Vec<usize>) -> (s: String)
    requires
        widths@.len() == cells@.len(),
    ensures
        s@ == table_line(views(cells@), widths@.map_values(|w: usize| w as nat)),
{
    let ghost ws = widths@.map_values(|w: usize| w as nat);
    let ghost parts = line_cells(views(cells@), ws);
    let mut s = String::new();
    let mut j: usize = 0;
    while j < cells.len()
        invariant
            j <= cells@.len(),
            widths@.len() == cells@.len(),
            ws == widths@.map_values(|w: usize| w as nat),
            parts == line_cells(views(cells@), ws),
            s@ == join_spec(parts.take(j as int), " │ "@),
        decreases cells.len() - j,
    {
        let mut cell = String::from_str(cells[j].as_str());
        if j + 1 < cells.len() {
            let n = cells[j].as_str().unicode_len();
            let mut k = n;
            while k < widths[j]
                invariant
                    n <= k || widths@[j as int] < n,
                    n == cells@[j as int]@.len(),
                    k >= n,
                    k <= widths@[j as int] || k == n,
                    j < widths@.len(),
                    cell@ == cells@[j as int]@ + spaces((k - n) as nat),
                decreases widths@[j as int] - k,
            {
                let ghost before = cell@;
                cell.append(" ");
                k = k + 1;
                proof {
                    reveal_strlit(" ");
                    assert(spaces((k - n) as nat) =~= spaces((k - 1 - n) as nat).push(' '));
                    assert(cell@ =~= cells@[j as int]@ + spaces((k - n) as nat));
                }
            }
            proof {
                if n >= widths@[j as int] {
                    assert(cell@ =~= cells@[j as int]@);
                }
                assert(cell@ == parts[j as int]);
            }
        }
        if j > 0 {
            s.append(" │ ");
        }
        s.append(cell.as_str());
        proof {
            assert(parts.take(j + 1).drop_last() =~= parts.take(j as int));
            assert(parts.take(j + 1).last() == parts[j as int]);
            if j == 0 {
                assert(parts.take(1) =~= seq![parts[0]]);
            }
        }
        j = j + 1;
    }
    s.append("\n");
    proof {
        assert(parts.take(cells@.len() as int) =~= parts);
    }
    s
}

/// Render rows under a header: nothing when there are no rows; otherwise the
/// header line, then each row's line, every column but the last padded to
/// its widest cell (the header included), columns joined by ` │ `.
pub fn render_columns(header: &Vec<String>, rows: &Vec<Vec<String>>) -> (s: String)
    requires
        forall|i: int| 0 <= i < rows@.len() ==> (#[trigger] rows@[i])@.len() == header@.len(),
    ensures
        s@ == table_spec(views(header@), grid(rows@)),
{
    if rows.len() == 0 {
        return String::new();
    }
    let mut widths: Vec<usize> = Vec::new();
    let mut j: usize = 0;
    while j < header.len()
        invariant
            j <= header@.len(),
            forall|i: int| 0 <= i < rows@.len() ==> (#[trigger] rows@[i])@.len() == header@.len(),
            widths@.len() == j,
            forall|k: int| 0 <= k < j ==> #[trigger] widths@[k] as nat == col_width(views(header@), grid(rows@), k),
        decreases header.len() - j,
    {
        let w = column_width(header, rows, j);
        widths.push(w);
        j = j + 1;
    }
    let ghost ws = widths@.map_values(|w: usize| w as nat);
    proof {
        assert(ws =~= widths_of(views(header@), grid(rows@)));
    }
    let mut s = line_text(header, &widths);
    let ghost head = s@;
    let ghost lines = grid(rows@).map_values(|r: Seq<Seq<char>>| table_line(r, ws));
    let mut i: usize = 0;
    while i < rows.len()
        invariant
            i <= rows@.len(),
            forall|i: int| 0 <= i < rows@.len() ==> (#[trigger] rows@[i])@.len() == header@.len(),
            widths@.len() == header@.len(),
            ws == widths@.map_values(|w: usize| w as nat),
            lines == grid(rows@).map_values(|r: Seq<Seq<char>>| table_line(r, ws)),
            s@ == head + concat_all(lines.take(i as int)),
        decreases rows.len() - i,
    {
        let l = line_text(&rows[i], &widths);
        s.append(l.as_str());
        proof {
            assert(lines.take(i + 1).drop_last() =~= lines.take(i as int));
            assert(lines.take(i + 1).last() == lines[i as int]);
            assert(lines[i as int] == table_line(views(rows@[i as int]@), ws));
        }
        i = i + 1;
    }
    proof {
        assert(lines.take(rows@.len() as int) =~= lines);
    }
    s
}

/// Whether `name` is one of `names`.
fn names_contain(names: &[&str], name: &str) -> (r: bool)
    ensures
        r == exists|k: int| 0 <= k < names@.len() && (#[trigger] names@[k])@ == name@,
{
    let mut k: usize = 0;
    while k < names.len()
        invariant
            k <= names@.len(),
            forall|m: int| 0 <= m < k ==> (#[trigger] names@[m])@ != name@,
        decreases names.len() - k,
    {
        if str_eq(names[k], name) {
            return true;
        }
        k = k + 1;
    }
    false
}

/// The first requested column that is not a known one.
pub open spec fn first_unknown(known: Seq<&str>, requested: Seq<Seq<char>>) -> Option<int>
    decreases requested.len(),
{
    if requested.len() == 0 {
        None
    } else {
        match first_unknown(known, requested.drop_last()) {
            Some(i) => Some(i),
            None => if exists|k: int| 0 <= k < known.len() && (#[trigger] known[k])@ == requested.last() {
                None
            } else {
                Some(requested.len() - 1)
            },
        }
    }
}

/// The visible columns: the default set, or the requested ones in the order
/// given, each of which must be a known column; an unknown one is refused,
/// naming it and the known set.
pub fn select_columns(known: &[&str], default: &[&str], requested: Option<&Vec<String>>) -> (r: Result<Vec<String>, String>)
    ensures
        requested is None ==> (r matches Ok(cols) && views(cols@) == default@.map_values(|d: &str| d@)),
        requested matches Some(req) ==> match first_unknown(known@, views(req@)) {
            None => r matches Ok(cols) && views(cols@) == views(req@),
            Some(i) => r matches Err(m) && m@ == "unknown column `"@ + req@[i]@ + "` (known: "@
                + join_spec(known@.map_values(|k: &str| k@), ", "@) + ")"@,
        },
{
    match requested {
        None => {
            let mut cols: Vec<String> = Vec::new();
            let mut i: usize = 0;
            while i < default.len()
                invariant
                    i <= default@.len(),
                    views(cols@) == default@.map_values(|d: &str| d@).take(i as int),
                decreases default.len() - i,
            {
                let ghost before = views(cols@);
                let d = String::from_str(default[i]);
                assert(d@ == default@[i as int]@);
                cols.push(d);
                i = i + 1;
                proof {
                    assert(views(cols@) =~= before.push(default@[i - 1]@));
                    assert(views(cols@) =~= default@.map_values(|d: &str| d@).take(i as int));
                }
            }
            proof {
                assert(default@.map_values(|d: &str| d@).take(default@.len() as int) =~= default@.map_values(|d: &str| d@));
            }
            Ok(cols)
        },
        Some(req) => {
            let ghost rv = views(req@);
            let mut cols: Vec<String> = Vec::new();
            let mut i: usize = 0;
            while i < req.len()
                invariant
                    i <= req@.len(),
                    rv == views(req@),
                    requested == Some(req),
                    first_unknown(known@, rv.take(i as int)) is None,
                    views(cols@) == rv.take(i as int),
                decreases req.len() - i,
            {
                let ok = names_contain(known, req[i].as_str());
                proof {
                    let t = rv.take(i + 1);
                    assert(t.drop_last() =~= rv.take(i as int));
                    assert(t.last() == req@[i as int]@);
                }
                if !ok {
                    proof {
                        assert(first_unknown(known@, rv.take(i + 1)) == Some(i as int));
                        lemma_first_unknown_prefix(known@, rv, i as int);
                    }
                    let mut m = String::from_str("unknown column `");
                    m.append(req[i].as_str());
                    m.append("` (known: ");
                    let mut names: Vec<String> = Vec::new();
                    let mut k: usize = 0;
                    while k < known.len()
                        invariant
                            k <= known@.len(),
                            views(names@) == known@.map_values(|x: &str| x@).take(k as int),
                        decreases known.len() - k,
                    {
                        let ghost before = views(names@);
                        let x = String::from_str(known[k]);
                        assert(x@ == known@[k as int]@);
                        names.push(x);
                        k = k + 1;
                        proof {
                            assert(views(names@) =~= before.push(known@[k - 1]@));
                            assert(views(names@) =~= known@.map_values(|x: &str| x@).take(k as int));
                        }
                    }
                    proof {
                        assert(known@.map_values(|x: &str| x@).take(known@.len() as int) =~= known@.map_values(|x: &str| x@));
                    }
                    let joined = crate::text::join(&names, ", ");
                    m.append(joined.as_str());
                    m.append(")");
                    return Err(m);
                }
                cols.push(req[i].clone());
                i = i + 1;
                proof {
                    assert(views(cols@) =~= rv.take(i as int));
                }
            }
            proof {
                assert(rv.take(req@.len() as int) =~= rv);
            }
            Ok(cols)
        },
    }
}

/// The first unknown of a sequence whose prefix has none is the first
/// unknown element after it.
proof fn lemma_first_unknown_prefix(known: Seq<&str>, req: Seq<Seq<char>>, i: int)
    requires
        0 <= i < req.len(),
        first_unknown(known, req.take(i)) is None,
        first_unknown(known, req.take(i + 1)) == Some(i),
    ensures
        first_unknown(known, req) == Some(i),
    decreases req.len(),
{
    if req.len() == i + 1 {
        assert(req.take(i + 1) =~= req);
    } else {
        let d = req.drop_last();
        assert(d.take(i) =~= req.take(i));
        assert(d.take(i + 1) =~= req.take(i + 1));
        lemma_first_unknown_prefix(known, d, i);
    }
}

} // verus!
