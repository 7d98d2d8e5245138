//! Standards: standing conventions of practice — their status vocabulary, the
//! list hide-set, the scaffolded fileset, and `STD-NNN` references.

use vstd::prelude::*;
use crate::entity::{Artifact, ScaffoldCtx, artifact_model};
use crate::listing::canonical_id_spec;
use crate::slice::{render_toml, render_toml_spec, ref_title_spec, under_id, path_under_id};
use crate::text::{str_eq, chars_of, prefix_at, parse_u32_from, parse_u32_spec, has_prefix, replace_all,
    zero_padded, zero_padded_string};

verus! {

/// A standard's status.
#[derive(Debug, Clone, Copy, PartialEq, Eq, Structural)]
pub enum StandardStatus {
    Draft,
    Default,
    Required,
    Superseded,
    Deprecated,
    Retired,
}

/// The stored spelling of a standard status.
pub open spec fn standard_status_text(s: StandardStatus) -> Seq<char> {
    match s {
        StandardStatus::Draft => "draft"@,
        StandardStatus::Default => "default"@,
        StandardStatus::Required => "required"@,
        StandardStatus::Superseded => "superseded"@,
        StandardStatus::Deprecated => "deprecated"@,
        StandardStatus::Retired => "retired"@,
    }
}

impl StandardStatus {
    /// The stored spelling.
    pub fn as_str(self) -> (s: &'static str)
        ensures
            s@ == standard_status_text(self),
    {
        match self {
            StandardStatus::Draft => "draft",
            StandardStatus::Default => "default",
            StandardStatus::Required => "required",
            StandardStatus::Superseded => "superseded",
            StandardStatus::Deprecated => "deprecated",
            StandardStatus::Retired => "retired",
        }
    }
}

/// The standard status vocabulary.
pub const STANDARD_STATUSES: [&'static str; 6] = ["draft", "default", "required", "superseded", "deprecated", "retired"];

/// Standards that no longer govern are hidden from the default list:
/// `superseded`, `deprecated`, `retired`.
pub fn is_hidden(status: &str) -> (r: bool)
    ensures
        r == (status@ == "superseded"@ || status@ == "deprecated"@ || status@ == "retired"@),
{
    str_eq(status, "superseded") || str_eq(status, "deprecated") || str_eq(status, "retired")
}

/// Render a standard's metadata file: `{{id}}`, `{{slug}}`, `{{title}}` (the
/// last two as TOML string literals) and `{{date}}`.
pub fn render_standard_toml(template: &str, id: u32, slug: &str, title: &str, date: &str) -> (s: String)
    ensures
        s@ == render_toml_spec(template@, id as nat, slug@, title@, date@),
{
    render_toml(template, id, slug, title, date)
}

/// Render a standard's prose: `{{ref}}` and `{{title}}`.
pub fn render_standard_md(template: &str, canonical_id: &str, title: &str) -> (s: String)
    ensures
        s@ == ref_title_spec(template@, canonical_id@, title@),
{
    proof {
        reveal_strlit("{{ref}}");
        reveal_strlit("{{title}}");
    }
    let a = replace_all(template, "{{ref}}", canonical_id);
    replace_all(a.as_str(), "{{title}}", title)
}

/// The standard fileset: `NNN/standard-NNN.toml`, `NNN/standard-NNN.md`, and
/// the symlink `NNN-<slug>` to `NNN`.
pub fn standard_scaffold(ctx: &ScaffoldCtx, toml_template: &str, md_template: &str) -> (f: Vec<Artifact>)
    ensures
        f@.map_values(|a: Artifact| artifact_model(a)) == seq![
            (true, under_id(ctx.id as nat, "standard-"@ + zero_padded(ctx.id as nat, 3) + ".toml"@),
                render_toml_spec(toml_template@, ctx.id as nat, ctx.slug@, ctx.title@, ctx.date@)),
            (true, under_id(ctx.id as nat, "standard-"@ + zero_padded(ctx.id as nat, 3) + ".md"@),
                ref_title_spec(md_template@, ctx.canonical@, ctx.title@)),
            (false, zero_padded(ctx.id as nat, 3) + "-"@ + ctx.slug@, zero_padded(ctx.id as nat, 3)),
        ],
{
    let name = zero_padded_string(ctx.id as u64, 3);
    let mut toml_leaf = String::from_str("standard-");
    toml_leaf.append(name.as_str());
    toml_leaf.append(".toml");
    let mut md_leaf = String::from_str("standard-");
    md_leaf.append(name.as_str());
    md_leaf.append(".md");
    let toml_path = path_under_id(ctx.id, toml_leaf.as_str());
    let md_path = path_under_id(ctx.id, md_leaf.as_str());
    let mut link = name.clone();
    link.append("-");
    link.append(ctx.slug);
    let f = vec![
        Artifact::File { rel_path: toml_path, body: render_standard_toml(toml_template, ctx.id, ctx.slug, ctx.title, ctx.date) },
        Artifact::File { rel_path: md_path, body: render_standard_md(md_template, ctx.canonical, ctx.title) },
        Artifact::Symlink { rel_path: link, target: name },
    ];
    assert(f@.map_values(|a: Artifact| artifact_model(a)) =~= seq![
        (true, under_id(ctx.id as nat, "standard-"@ + zero_padded(ctx.id as nat, 3) + ".toml"@),
            render_toml_spec(toml_template@, ctx.id as nat, ctx.slug@, ctx.title@, ctx.date@)),
        (true, under_id(ctx.id as nat, "standard-"@ + zero_padded(ctx.id as nat, 3) + ".md"@),
            ref_title_spec(md_template@, ctx.canonical@, ctx.title@)),
        (false, zero_padded(ctx.id as nat, 3) + "-"@ + ctx.slug@, zero_padded(ctx.id as nat, 3)),
    ]);
    f
}

/// The digits of a standard reference: without its `STD-` or `std-` prefix.
pub open spec fn standard_ref_digits(r: Seq<char>) -> Seq<char> {
    if has_prefix(r, "STD-"@) {
        r.skip(4)
    } else if has_prefix(r, "std-"@) {
        r.skip(4)
    } else {
        r
    }
}

/// The id a standard reference names; anything else is refused naming it.
pub open spec fn parse_standard_ref_spec(r: Seq<char>) -> Result<u32, Seq<char>> {
    match parse_u32_spec(standard_ref_digits(r)) {
        Some(n) => Ok(n),
        None => Err("not a standard reference: `"@ + r + "` (expected `STD-007` or `7`)"@),
    }
}

/// Parse a standard reference (`STD-007`, `std-7`, `7`) to its numeric id.
pub fn parse_ref(reference: &str) -> (r: Result<u32, String>)
    ensures
        match parse_standard_ref_spec(reference@) {
            Ok(n) => r matches Ok(m) && m == n,
            Err(e) => r matches Err(s) && s@ == e,
        },
{
    proof {
        reveal_strlit("STD-");
        reveal_strlit("std-");
    }
    let cs = chars_of(reference);
    assert(cs@.skip(0) =~= cs@);
    let start: usize = if prefix_at(&cs, "STD-", 0) || prefix_at(&cs, "std-", 0) { 4 } else { 0 };
    assert(cs@.skip(start as int) =~= standard_ref_digits(reference@));
    match parse_u32_from(&cs, start) {
        Some(n) => Ok(n),
        None => {
            let mut e = String::from_str("not a standard reference: `");
            e.append(reference);
            e.append("` (expected `STD-007` or `7`)");
            Err(e)
        },
    }
}

/// A standard's canonical id parses back to its number.
pub proof fn lemma_parse_ref_round_trip(id: u32)
    ensures
        parse_standard_ref_spec(canonical_id_spec("STD"@, id as nat)) == Ok::<u32, Seq<char>>(id),
{
    reveal_strlit("STD");
    reveal_strlit("-");
    reveal_strlit("STD-");
    let c = canonical_id_spec("STD"@, id as nat);
    let z = zero_padded(id as nat, 3);
    crate::text::lemma_zero_padded(id as nat, 3);
    assert(c.take(4) =~= "STD-"@);
    assert(c.skip(4) =~= z);
    crate::text::lemma_parse_digits(z);
}

} // verus!
