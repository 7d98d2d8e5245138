//! The human-readable `slice show`: identity and flat fields, the advisory
//! conduct posture, tags, dates, the facet rows, the `relationships:` block,
//! then the scope body verbatim.

use vstd::prelude::*;
use crate::listing::canonical_id_spec;
use crate::slice::{canonical_id, Gate};
use crate::text::{decimal, decimal_string, join, join_spec, views};

verus! {

/// The authored fields of a slice that its show reads.
#[derive(Debug, Clone)]
pub struct SliceDoc {
    pub id: u32,
    pub slug: String,
    pub title: String,
    pub status: String,
    pub created: String,
    pub updated: String,
    pub tags: Vec<String>,
    pub gate: Gate,
}

/// The structural relations of a slice, by axis, each a list of targets.
#[derive(Debug, Clone)]
pub struct ShowRelations {
    pub supersedes: Vec<String>,
    pub governed_by: Vec<String>,
    pub implements: Vec<String>,
    pub scoped_from: Vec<String>,
    pub concerns: Vec<String>,
}

/// An ordering edge: this slice comes after `to`, with a rank among peers.
#[derive(Debug, Clone)]
pub struct AfterEdge {
    pub to: String,
    pub rank: u32,
}

/// The dependency and sequencing axes of a slice.
#[derive(Debug, Clone)]
pub struct DepSeq {
    pub needs: Vec<String>,
    pub after: Vec<AfterEdge>,
}

/// One axis line, `  label: a, b\n`; nothing when the axis is empty.
pub open spec fn axis_line(label: Seq<char>, targets: Seq<Seq<char>>) -> Seq<char> {
    if targets.len() == 0 {
        Seq::empty()
    } else {
        "  "@ + label + ": "@ + join_spec(targets, ", "@) + "\n"@
    }
}

/// An `after` edge as shown: the target, with ` (rank N)` unless the rank is 0.
pub open spec fn after_text(e: AfterEdge) -> Seq<char> {
    if e.rank == 0 {
        e.to@
    } else {
        e.to@ + " (rank "@ + decimal(e.rank as nat) + ")"@
    }
}

/// The `after` edges as shown.
pub open spec fn after_texts(after: Seq<AfterEdge>) -> Seq<Seq<char>> {
    after.map_values(|e: AfterEdge| after_text(e))
}

/// Whether any relation axis has a target.
pub open spec fn any_relation(r: ShowRelations, d: DepSeq) -> bool {
    r.supersedes@.len() > 0 || r.governed_by@.len() > 0 || r.implements@.len() > 0 || r.scoped_from@.len() > 0
        || r.concerns@.len() > 0 || d.needs@.len() > 0 || d.after@.len() > 0
}

/// The `relationships:` block: the structural axes in their fixed order, then
/// `needs` and `after`; each axis only when it has targets, the block only
/// when any has.
pub open spec fn relationships_block(r: ShowRelations, d: DepSeq) -> Seq<char> {
    if any_relation(r, d) {
        "\nrelationships:\n"@
            + axis_line("supersedes"@, views(r.supersedes@))
            + axis_line("governed_by"@, views(r.governed_by@))
            + axis_line("references(implements)"@, views(r.implements@))
            + axis_line("references(scoped_from)"@, views(r.scoped_from@))
            + axis_line("references(concerns)"@, views(r.concerns@))
            + axis_line("needs"@, views(d.needs@))
            + axis_line("after"@, after_texts(d.after@))
    } else {
        Seq::empty()
    }
}

/// An optional line, with its newline.
pub open spec fn opt_row(line: Option<Seq<char>>) -> Seq<char> {
    match line {
        Some(l) => l + "\n"@,
        None => Seq::empty(),
    }
}

/// The head of the show: identity, slug and status, conduct posture, tags
/// (only when there are any) and dates.
pub open spec fn show_head(doc: SliceDoc, posture: Seq<char>) -> Seq<char> {
    canonical_id_spec("SL"@, doc.id as nat) + " — "@ + doc.title@ + "\n"@
        + doc.slug@ + " · "@ + doc.status@ + "\n"@
        + "conduct: "@ + posture + "\n"@
        + (if doc.tags@.len() > 0 { "tags: "@ + join_spec(views(doc.tags@), ", "@) + "\n"@ } else { Seq::empty() })
        + "created "@ + doc.created@ + " · updated "@ + doc.updated@ + "\n"@
}

/// The whole show.
pub open spec fn show_spec(
    doc: SliceDoc,
    relations: ShowRelations,
    dep_seq: DepSeq,
    body: Seq<char>,
    posture: Seq<char>,
    estimate_line: Option<Seq<char>>,
    value_line: Option<Seq<char>>,
) -> Seq<char> {
    show_head(doc, posture) + opt_row(estimate_line) + opt_row(value_line) + relationships_block(relations, dep_seq)
        + "\n"@ + body
}

/// The view of an optional line.
pub open spec fn opt_line_view(o: Option<&str>) -> Option<Seq<char>> {
    match o {
        Some(s) => Some(s@),
        None => None,
    }
}

/// Append an axis line when the axis has targets.
fn push_axis(out: &mut String, label: &str, targets: &Vec<String>)
    ensures
        final(out)@ == old(out)@ + axis_line(label@, views(targets@)),
{
    if targets.len() > 0 {
        out.append("  ");
        out.append(label);
        out.append(": ");
        let j = join(targets, ", ");
        out.append(j.as_str());
        out.append("\n");
    }
}

/// The `after` edges as shown.
fn after_strings(after: &Vec<AfterEdge>) -> (r: Vec<String>)
    ensures
        views(r@) == after_texts(after@),
{
    let mut r: Vec<String> = Vec::new();
    let mut i: usize = 0;
    while i < after.len()
        invariant
            i <= after@.len(),
            views(r@) == after_texts(after@).take(i as int),
        decreases after.len() - i,
    {
        let e = &after[i];
        let mut s = String::from_str(e.to.as_str());
        if e.rank != 0 {
            s.append(" (rank ");
            let d = decimal_string(e.rank as u64);
            s.append(d.as_str());
            s.append(")");
        }
        let ghost before = views(r@);
        r.push(s);
        i = i + 1;
        assert(views(r@) =~= after_texts(after@).take(i as int)) by {
            assert(views(r@) =~= before.push(after_text(after@[i - 1])));
        }
    }
    assert(after_texts(after@).take(after@.len() as int) =~= after_texts(after@));
    r
}

/// The head of the show.
fn show_head_text(doc: &SliceDoc, posture: &str) -> (out: String)
    ensures
        out@ == show_head(*doc, posture@),
{
    let mut out = canonical_id(doc.id);
    out.append(" — ");
    out.append(doc.title.as_str());
    out.append("\n");
    out.append(doc.slug.as_str());
    out.append(" · ");
    out.append(doc.status.as_str());
    out.append("\n");
    out.append("conduct: ");
    out.append(posture);
    out.append("\n");
    let ghost before_tags = out@;
    if doc.tags.len() > 0 {
        out.append("tags: ");
        let t = join(&doc.tags, ", ");
        out.append(t.as_str());
        out.append("\n");
    }
    out.append("created ");
    out.append(doc.created.as_str());
    out.append(" · updated ");
    out.append(doc.updated.as_str());
    out.append("\n");
    assert(out@ =~= show_head(*doc, posture@));
    out
}

/// The `relationships:` block.
fn relationships_text(relations: &ShowRelations, dep_seq: &DepSeq) -> (out: String)
    ensures
        out@ == relationships_block(*relations, *dep_seq),
{
    let mut out = String::new();
    let any = relations.supersedes.len() > 0 || relations.governed_by.len() > 0 || relations.implements.len() > 0
        || relations.scoped_from.len() > 0 || relations.concerns.len() > 0 || dep_seq.needs.len() > 0
        || dep_seq.after.len() > 0;
    if any {
        out.append("\nrelationships:\n");
        push_axis(&mut out, "supersedes", &relations.supersedes);
        push_axis(&mut out, "governed_by", &relations.governed_by);
        push_axis(&mut out, "references(implements)", &relations.implements);
        push_axis(&mut out, "references(scoped_from)", &relations.scoped_from);
        push_axis(&mut out, "references(concerns)", &relations.concerns);
        push_axis(&mut out, "needs", &dep_seq.needs);
        let after = after_strings(&dep_seq.after);
        push_axis(&mut out, "after", &after);
    }
    assert(out@ =~= relationships_block(*relations, *dep_seq));
    out
}

/// Render a slice for reading: the head, the estimate and value rows when
/// given, the `relationships:` block when any axis has targets, then a blank
/// line and the scope body verbatim.
pub fn format_show(
    doc: &SliceDoc,
    relations: &ShowRelations,
    dep_seq: &DepSeq,
    body: &str,
    posture: &str,
    estimate_line: Option<&str>,
    value_line: Option<&str>,
) -> (out: String)
    ensures
        out@ == show_spec(*doc, *relations, *dep_seq, body@, posture@, opt_line_view(estimate_line), opt_line_view(value_line)),
{
    let mut out = show_head_text(doc, posture);
    match estimate_line {
        Some(l) => {
            out.append(l);
            out.append("\n");
        },
        None => {},
    }
    match value_line {
        Some(l) => {
            out.append(l);
            out.append("\n");
        },
        None => {},
    }
    let block = relationships_text(relations, dep_seq);
    out.append(block.as_str());
    out.append("\n");
    out.append(body);
    assert(out@ =~= show_spec(*doc, *relations, *dep_seq, body@, posture@, opt_line_view(estimate_line), opt_line_view(value_line)));
    out
}

} // verus!
