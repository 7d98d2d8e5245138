//! Product and tech specs: their subtypes and vocabularies, the spec-ref
//! resolver, membership labels and order, the scaffolded filesets, the list
//! projections, and the reassembled readable whole.

use vstd::prelude::*;
use crate::entity::{Artifact, ScaffoldCtx, Kind, artifact_model};
use crate::listing::{Meta, FilterFields, canonical_id_spec};
use crate::requirement::{ReqKind, Requirement, req_kind_text, req_status_text};
use crate::sorted::{SortedMap, lookup, lemma_insert_then_lookup};
use crate::text::{str_eq, chars_of, prefix_at, parse_u32_from, parse_u32_spec, has_prefix, rfind_seq, rfind_between,
    string_of_range, replace_all, replace_all_spec, decimal, decimal_string, zero_padded, zero_padded_string,
    copy_strings, lemma_zero_padded, lemma_parse_digits, lemma_rfind_seq, join, join_spec,
    views, concat_all};
use crate::tomlfmt::{toml_string, toml_string_literal};
use crate::slice::{ref_title_spec, under_id};

verus! {

/// The file stem shared by both subtypes (`spec-NNN.toml`).
pub const SPEC_STEM: &'static str = "spec";

/// The statuses a spec can be in, in order.
pub const SPEC_STATUSES: [&'static str; 4] = ["draft", "active", "deprecated", "superseded"];

/// The statuses a spec list hides unless asked for: `superseded`.
pub const SPEC_HIDDEN: [&'static str; 1] = ["superseded"];

/// Which spec a spec is.
#[derive(Debug, Clone, Copy, PartialEq, Eq, Structural)]
pub enum SpecSubtype {
    Product,
    Tech,
}

/// The id prefix of a subtype.
pub open spec fn subtype_prefix(s: SpecSubtype) -> Seq<char> {
    match s {
        SpecSubtype::Product => "PRD"@,
        SpecSubtype::Tech => "SPEC"@,
    }
}

impl SpecSubtype {
    /// The subtype's tree and prefix.
    pub fn kind(self) -> (k: Kind)
        ensures
            k.prefix@ == subtype_prefix(self),
            k.dir@ == (match self {
                SpecSubtype::Product => ".doctrine/spec/product"@,
                SpecSubtype::Tech => ".doctrine/spec/tech"@,
            }),
    {
        match self {
            SpecSubtype::Product => Kind { dir: ".doctrine/spec/product", prefix: "PRD" },
            SpecSubtype::Tech => Kind { dir: ".doctrine/spec/tech", prefix: "SPEC" },
        }
    }

    /// The embedded identity-TOML template of the subtype.
    pub fn toml_template(self) -> (s: &'static str)
        ensures
            s@ == (match self {
                SpecSubtype::Product => "templates/spec-product.toml"@,
                SpecSubtype::Tech => "templates/spec-tech.toml"@,
            }),
    {
        match self {
            SpecSubtype::Product => "templates/spec-product.toml",
            SpecSubtype::Tech => "templates/spec-tech.toml",
        }
    }

    /// The embedded prose template of the subtype.
    pub fn md_template(self) -> (s: &'static str)
        ensures
            s@ == (match self {
                SpecSubtype::Product => "templates/spec-product.md"@,
                SpecSubtype::Tech => "templates/spec-tech.md"@,
            }),
    {
        match self {
            SpecSubtype::Product => "templates/spec-product.md",
            SpecSubtype::Tech => "templates/spec-tech.md",
        }
    }

    /// The canonical ref of an id in the subtype's namespace (`PRD-007`).
    pub fn canonical_id(self, id: u32) -> (s: String)
        ensures
            s@ == canonical_id_spec(subtype_prefix(self), id as nat),
    {
        let k = self.kind();
        crate::listing::canonical_id(k.prefix, id)
    }

    /// The subtype's label in list headers.
    pub fn label(self) -> (s: &'static str)
        ensures
            s@ == (match self {
                SpecSubtype::Product => "product"@,
                SpecSubtype::Tech => "tech"@,
            }),
    {
        match self {
            SpecSubtype::Product => "product",
            SpecSubtype::Tech => "tech",
        }
    }
}

/// A spec's lifecycle status.
#[derive(Debug, Clone, Copy, PartialEq, Eq, Structural)]
pub enum SpecStatus {
    Draft,
    Active,
    Deprecated,
    Superseded,
}

/// The stored spelling of a spec status.
pub open spec fn spec_status_text(s: SpecStatus) -> Seq<char> {
    match s {
        SpecStatus::Draft => "draft"@,
        SpecStatus::Active => "active"@,
        SpecStatus::Deprecated => "deprecated"@,
        SpecStatus::Superseded => "superseded"@,
    }
}

impl SpecStatus {
    /// The stored spelling.
    pub fn as_str(self) -> (s: &'static str)
        ensures
            s@ == spec_status_text(self),
    {
        match self {
            SpecStatus::Draft => "draft",
            SpecStatus::Active => "active",
            SpecStatus::Deprecated => "deprecated",
            SpecStatus::Superseded => "superseded",
        }
    }
}

/// The C4 level of a tech spec.
#[derive(Debug, Clone, Copy, PartialEq, Eq, Structural)]
pub enum C4Level {
    Context,
    Container,
    Component,
    Code,
}

/// The stored spelling of a C4 level.
pub open spec fn c4_level_text(l: C4Level) -> Seq<char> {
    match l {
        C4Level::Context => "context"@,
        C4Level::Container => "container"@,
        C4Level::Component => "component"@,
        C4Level::Code => "code"@,
    }
}

impl C4Level {
    /// The stored spelling.
    pub fn as_str(self) -> (s: &'static str)
        ensures
            s@ == c4_level_text(self),
    {
        match self {
            C4Level::Context => "context",
            C4Level::Container => "container",
            C4Level::Component => "component",
            C4Level::Code => "code",
        }
    }
}

/// The altitude of a product spec.
#[derive(Debug, Clone, Copy, PartialEq, Eq, Structural)]
pub enum ProductLevel {
    Domain,
    Capability,
    Feature,
    Story,
}

/// The stored spelling of a product level.
pub open spec fn product_level_text(l: ProductLevel) -> Seq<char> {
    match l {
        ProductLevel::Domain => "domain"@,
        ProductLevel::Capability => "capability"@,
        ProductLevel::Feature => "feature"@,
        ProductLevel::Story => "story"@,
    }
}

impl ProductLevel {
    /// The stored spelling.
    pub fn as_str(self) -> (s: &'static str)
        ensures
            s@ == product_level_text(self),
    {
        match self {
            ProductLevel::Domain => "domain",
            ProductLevel::Capability => "capability",
            ProductLevel::Feature => "feature",
            ProductLevel::Story => "story",
        }
    }
}

/// A code anchor a tech spec governs.
#[derive(Debug, Clone)]
pub struct Source {
    pub language: String,
    pub identifier: String,
    pub module: Option<String>,
}

/// A spec's identity and flat fields.
#[derive(Debug, Clone)]
pub struct Spec {
    pub id: u32,
    pub slug: String,
    pub title: String,
    pub status: SpecStatus,
    pub kind: SpecSubtype,
    pub tags: Vec<String>,
    pub category: Option<String>,
    pub c4_level: Option<C4Level>,
    pub product_level: Option<ProductLevel>,
    pub responsibilities: Vec<String>,
    pub sources: Vec<Source>,
    pub descends_from: Option<String>,
    pub parent: Option<String>,
}

/// One membership row: the requirement, its sticky label, its advisory order.
#[derive(Debug, Clone)]
pub struct Member {
    pub requirement: String,
    pub label: String,
    pub order: u32,
}

/// One outbound edge of a tech spec.
#[derive(Debug, Clone)]
pub struct Interaction {
    pub target: String,
    pub kind: String,
    pub notes: Option<String>,
}

/// A `superseded` spec is hidden from the default list.
pub fn is_hidden(status: &str) -> (r: bool)
    ensures
        r == (status@ == "superseded"@),
{
    str_eq(status, "superseded")
}

/// The canonical id of a spec id in a subtype's namespace.
pub fn canonical_id(subtype: SpecSubtype, id: u32) -> (s: String)
    ensures
        s@ == canonical_id_spec(subtype_prefix(subtype), id as nat),
{
    subtype.canonical_id(id)
}

/// A spec's filterable fields; spec metadata carries no tags on the list path.
pub fn key(subtype: SpecSubtype, m: &Meta) -> (f: FilterFields)
    ensures
        f.canonical@ == canonical_id_spec(subtype_prefix(subtype), m.id as nat),
        f.slug@ == m.slug@,
        f.title@ == m.title@,
        f.status@ == m.status@,
        f.tags@.len() == 0,
{
    FilterFields {
        canonical: canonical_id(subtype, m.id),
        slug: m.slug.clone(),
        title: m.title.clone(),
        status: m.status.clone(),
        tags: Vec::new(),
    }
}

/// One spec as a table row.
#[derive(Debug, Clone)]
pub struct SpecListRow {
    pub id: String,
    pub status: String,
    pub slug: String,
    pub title: String,
    pub members: usize,
}

/// The table rows of one subtype's specs, with their member counts.
pub fn spec_list_rows(subtype: SpecSubtype, rows: &Vec<(Meta, usize)>) -> (out: Vec<SpecListRow>)
    ensures
        out@.len() == rows@.len(),
        forall|i: int| 0 <= i < rows@.len() ==> {
            &&& (#[trigger] out@[i]).id@ == canonical_id_spec(subtype_prefix(subtype), rows@[i].0.id as nat)
            &&& out@[i].status@ == rows@[i].0.status@
            &&& out@[i].slug@ == rows@[i].0.slug@
            &&& out@[i].title@ == rows@[i].0.title@
            &&& out@[i].members == rows@[i].1
        },
{
    let mut out: Vec<SpecListRow> = Vec::new();
    let mut i: usize = 0;
    while i < rows.len()
        invariant
            i <= rows@.len(),
            out@.len() == i,
            forall|k: int| 0 <= k < i ==> {
                &&& (#[trigger] out@[k]).id@ == canonical_id_spec(subtype_prefix(subtype), rows@[k].0.id as nat)
                &&& out@[k].status@ == rows@[k].0.status@
                &&& out@[k].slug@ == rows@[k].0.slug@
                &&& out@[k].title@ == rows@[k].0.title@
                &&& out@[k].members == rows@[k].1
            },
        decreases rows.len() - i,
    {
        let (m, count) = &rows[i];
        out.push(SpecListRow {
            id: canonical_id(subtype, m.id),
            status: m.status.clone(),
            slug: m.slug.clone(),
            title: m.title.clone(),
            members: *count,
        });
        i = i + 1;
    }
    out
}

/// A membered requirement's filterable fields, keyed by its canonical id.
pub fn req_key(id: &str, req: &Requirement) -> (f: FilterFields)
    ensures
        f.canonical@ == id@,
        f.slug@ == req.slug@,
        f.title@ == req.title@,
        f.status@ == crate::requirement::req_status_text(req.status),
        f.tags@ == req.tags@,
{
    FilterFields {
        canonical: String::from_str(id),
        slug: req.slug.clone(),
        title: req.title.clone(),
        status: String::from_str(req.status.as_str()),
        tags: copy_strings(&req.tags),
    }
}

/// `spec-<id>.toml`: the template with `{{id}}`, then `{{slug}}` and
/// `{{title}}` as TOML string literals.
pub open spec fn render_spec_toml_spec(template: Seq<char>, id: nat, slug: Seq<char>, title: Seq<char>) -> Seq<char> {
    replace_all_spec(
        replace_all_spec(replace_all_spec(template, "{{id}}"@, decimal(id)), "{{slug}}"@, toml_string_literal(slug)),
        "{{title}}"@, toml_string_literal(title))
}

/// Render a spec's identity TOML from its subtype's template.
pub fn render_spec_toml(template: &str, id: u32, slug: &str, title: &str) -> (s: String)
    ensures
        s@ == render_spec_toml_spec(template@, id as nat, slug@, title@),
{
    proof {
        reveal_strlit("{{id}}");
        reveal_strlit("{{slug}}");
        reveal_strlit("{{title}}");
    }
    let n = decimal_string(id as u64);
    let a = replace_all(template, "{{id}}", n.as_str());
    let sl = toml_string(slug);
    let b = replace_all(a.as_str(), "{{slug}}", sl.as_str());
    let tl = toml_string(title);
    replace_all(b.as_str(), "{{title}}", tl.as_str())
}

/// Render a spec's prose from its subtype's template: `{{ref}}`, `{{title}}`.
pub fn render_spec_md(template: &str, canonical_id: &str, title: &str) -> (s: String)
    ensures
        s@ == ref_title_spec(template@, canonical_id@, title@),
{
    proof {
        reveal_strlit("{{ref}}");
        reveal_strlit("{{title}}");
    }
    let a = replace_all(template, "{{ref}}", canonical_id);
    replace_all(a.as_str(), "{{title}}", title)
}

/// The templates a spec fileset is rendered from.
#[derive(Debug, Clone, Copy)]
pub struct SpecTemplates<'a> {
    pub toml: &'a str,
    pub md: &'a str,
    pub members_seed: &'a str,
    pub interactions_seed: &'a str,
}

/// The fileset of a spec: identity TOML, prose, the seeded `members.toml`,
/// for a tech spec the seeded `interactions.toml`, and the `NNN-slug` alias.
pub open spec fn spec_fileset(subtype: SpecSubtype, ctx: ScaffoldCtx, t: SpecTemplates) -> Seq<(bool, Seq<char>, Seq<char>)> {
    let n = zero_padded(ctx.id as nat, 3);
    seq![
        (true, under_id(ctx.id as nat, "spec-"@ + n + ".toml"@), render_spec_toml_spec(t.toml@, ctx.id as nat, ctx.slug@, ctx.title@)),
        (true, under_id(ctx.id as nat, "spec-"@ + n + ".md"@), ref_title_spec(t.md@, ctx.canonical@, ctx.title@)),
        (true, under_id(ctx.id as nat, "members.toml"@), t.members_seed@),
    ] + (if subtype == SpecSubtype::Tech {
        seq![(true, under_id(ctx.id as nat, "interactions.toml"@), t.interactions_seed@)]
    } else {
        Seq::empty()
    }) + seq![(false, n + "-"@ + ctx.slug@, n)]
}

fn path_under(name: &String, leaf: &str) -> (p: String)
    ensures
        p@ == name@ + "/"@ + leaf@,
{
    let mut p = name.clone();
    p.append("/");
    p.append(leaf);
    p
}

/// Lay out a spec's fileset.
pub fn spec_scaffold(subtype: SpecSubtype, ctx: &ScaffoldCtx, t: &SpecTemplates) -> (f: Vec<Artifact>)
    ensures
        f@.map_values(|a: Artifact| artifact_model(a)) == spec_fileset(subtype, *ctx, *t),
{
    let name = zero_padded_string(ctx.id as u64, 3);
    let mut toml_leaf = String::from_str("spec-");
    toml_leaf.append(name.as_str());
    toml_leaf.append(".toml");
    let mut md_leaf = String::from_str("spec-");
    md_leaf.append(name.as_str());
    md_leaf.append(".md");
    let mut f: Vec<Artifact> = Vec::new();
    f.push(Artifact::File {
        rel_path: path_under(&name, toml_leaf.as_str()),
        body: render_spec_toml(t.toml, ctx.id, ctx.slug, ctx.title),
    });
    f.push(Artifact::File { rel_path: path_under(&name, md_leaf.as_str()), body: render_spec_md(t.md, ctx.canonical, ctx.title) });
    f.push(Artifact::File { rel_path: path_under(&name, "members.toml"), body: String::from_str(t.members_seed) });
    if subtype == SpecSubtype::Tech {
        f.push(Artifact::File {
            rel_path: path_under(&name, "interactions.toml"),
            body: String::from_str(t.interactions_seed),
        });
    }
    let mut link = name.clone();
    link.append("-");
    link.append(ctx.slug);
    f.push(Artifact::Symlink { rel_path: link, target: name });
    assert(f@.map_values(|a: Artifact| artifact_model(a)) =~= spec_fileset(subtype, *ctx, *t));
    f
}

/// The product fileset: no `interactions.toml`.
pub fn product_spec_scaffold(ctx: &ScaffoldCtx, t: &SpecTemplates) -> (f: Vec<Artifact>)
    ensures
        f@.map_values(|a: Artifact| artifact_model(a)) == spec_fileset(SpecSubtype::Product, *ctx, *t),
{
    spec_scaffold(SpecSubtype::Product, ctx, t)
}

/// The tech fileset: the product set plus `interactions.toml`.
pub fn tech_spec_scaffold(ctx: &ScaffoldCtx, t: &SpecTemplates) -> (f: Vec<Artifact>)
    ensures
        f@.map_values(|a: Artifact| artifact_model(a)) == spec_fileset(SpecSubtype::Tech, *ctx, *t),
{
    spec_scaffold(SpecSubtype::Tech, ctx, t)
}

/// A spec ref resolved: split at its last `-`; the prefix must be `PRD` or
/// `SPEC` and the rest a `u32`; each failure is refused with its own message.
pub open spec fn resolve_spec_ref_spec(r: Seq<char>) -> Result<(SpecSubtype, u32), Seq<char>> {
    match rfind_seq(r, "-"@) {
        None => Err("`"@ + r + "` is not a canonical spec ref (expected PRD-NNN or SPEC-NNN)"@),
        Some(j) => {
            let prefix = r.take(j as int);
            let num = r.skip((j + 1) as int);
            if prefix != "PRD"@ && prefix != "SPEC"@ {
                Err("unknown spec prefix `"@ + prefix + "` in `"@ + r + "` (expected PRD or SPEC)"@)
            } else {
                match parse_u32_spec(num) {
                    None => Err("`"@ + num + "` is not a numeric id in `"@ + r + "`"@),
                    Some(n) => Ok((if prefix == "PRD"@ { SpecSubtype::Product } else { SpecSubtype::Tech }, n)),
                }
            }
        },
    }
}

/// Resolve a canonical spec ref (`PRD-NNN`, `SPEC-NNN`); a bare number is
/// refused, since the two namespaces are independent.
pub fn resolve_spec_ref(spec_ref: &str) -> (r: Result<(SpecSubtype, u32), String>)
    ensures
        match resolve_spec_ref_spec(spec_ref@) {
            Ok(v) => r matches Ok(w) && w == v,
            Err(m) => r matches Err(s) && s@ == m,
        },
{
    proof {
        reveal_strlit("-");
    }
    let cs = chars_of(spec_ref);
    let dash = chars_of("-");
    let n = cs.len();
    assert(cs@.subrange(0, n as int) =~= spec_ref@);
    match rfind_between(&cs, &dash, 0, n) {
        None => {
            let mut m = String::from_str("`");
            m.append(spec_ref);
            m.append("` is not a canonical spec ref (expected PRD-NNN or SPEC-NNN)");
            Err(m)
        },
        Some(j) => {
            let prefix = string_of_range(&cs, 0, j);
            let num = string_of_range(&cs, j + 1, n);
            assert(prefix@ =~= spec_ref@.take(j as int));
            assert(num@ =~= spec_ref@.skip(j + 1));
            let product = str_eq(prefix.as_str(), "PRD");
            let tech = str_eq(prefix.as_str(), "SPEC");
            if !product && !tech {
                let mut m = String::from_str("unknown spec prefix `");
                m.append(prefix.as_str());
                m.append("` in `");
                m.append(spec_ref);
                m.append("` (expected PRD or SPEC)");
                return Err(m);
            }
            assert(cs@.skip(j + 1) =~= num@);
            match parse_u32_from(&cs, j + 1) {
                None => {
                    let mut m = String::from_str("`");
                    m.append(num.as_str());
                    m.append("` is not a numeric id in `");
                    m.append(spec_ref);
                    m.append("`");
                    Err(m)
                },
                Some(id) => Ok((if product { SpecSubtype::Product } else { SpecSubtype::Tech }, id)),
            }
        },
    }
}

/// A resolvable ref in its canonical form; anything else unchanged.
pub open spec fn canonicalize_spec_ref_spec(raw: Seq<char>) -> Seq<char> {
    match resolve_spec_ref_spec(raw) {
        Ok((s, n)) => canonical_id_spec(subtype_prefix(s), n as nat),
        Err(_) => raw,
    }
}

/// Canonicalise a stored spec ref, leaving an unresolvable one as it is.
pub fn canonicalize_spec_ref(raw: &str) -> (s: String)
    ensures
        s@ == canonicalize_spec_ref_spec(raw@),
{
    match resolve_spec_ref(raw) {
        Ok((subtype, n)) => subtype.canonical_id(n),
        Err(_) => String::from_str(raw),
    }
}

/// A canonical spec id resolves back to its subtype and number.
pub proof fn lemma_resolve_canonical(subtype: SpecSubtype, id: u32)
    ensures
        resolve_spec_ref_spec(canonical_id_spec(subtype_prefix(subtype), id as nat)) == Ok::<(SpecSubtype, u32), Seq<char>>((subtype, id)),
{
    reveal_strlit("-");
    reveal_strlit("PRD");
    reveal_strlit("SPEC");
    let p = subtype_prefix(subtype);
    let z = zero_padded(id as nat, 3);
    let c = p + "-"@ + z;
    lemma_zero_padded(id as nat, 3);
    lemma_rfind_seq(c, "-"@);
    let j = p.len() as int;
    assert(c.subrange(j, j + 1) =~= "-"@);
    assert forall|k: int| j < k && k + 1 <= c.len() implies #[trigger] c.subrange(k, k + 1) != "-"@ by {
        assert(c[k] == z[k - j - 1]);
        assert(crate::text::is_digit(z[k - j - 1]));
        if c.subrange(k, k + 1) == "-"@ {
            assert(c.subrange(k, k + 1)[0] == '-');
        }
    }
    match rfind_seq(c, "-"@) {
        Some(i) => {
            if (i as int) < j {
                assert(c.subrange(j, j + 1) == "-"@);
            }
            if (i as int) > j {
                assert(c.subrange(i as int, (i + 1) as int) == "-"@);
            }
        },
        None => {
            assert(c.subrange(j, j + 1) == "-"@);
        },
    }
    assert(c.take(j) =~= p);
    assert(c.skip(j + 1) =~= z);
    lemma_parse_digits(z);
}

/// The membership-label prefix of a requirement kind: `FR` or `NF`.
pub open spec fn label_prefix_spec(kind: ReqKind) -> Seq<char> {
    match kind {
        ReqKind::Functional => "FR"@,
        ReqKind::Quality => "NF"@,
    }
}

/// The membership-label prefix of a requirement kind.
pub fn label_prefix(kind: ReqKind) -> (s: &'static str)
    ensures
        s@ == label_prefix_spec(kind),
{
    match kind {
        ReqKind::Functional => "FR",
        ReqKind::Quality => "NF",
    }
}

/// The number of a label `<prefix>-<n>`, if it has that form.
pub open spec fn label_number(label: Seq<char>, prefix: Seq<char>) -> Option<u32> {
    if has_prefix(label, prefix + "-"@) {
        parse_u32_spec(label.skip((prefix.len() + 1) as int))
    } else {
        None
    }
}

/// The highest label number among members for `prefix`, zero when none.
pub open spec fn max_label(members: Seq<Member>, prefix: Seq<char>) -> nat
    decreases members.len(),
{
    if members.len() == 0 {
        0
    } else {
        let rest = max_label(members.drop_last(), prefix);
        match label_number(members.last().label@, prefix) {
            Some(n) => if n > rest { n as nat } else { rest },
            None => rest,
        }
    }
}

/// The next free label of a kind: `<prefix>-` and one more than the highest,
/// zero-padded to three digits.
pub fn next_label(members: &Vec<Member>, kind: ReqKind) -> (s: String)
    requires
        max_label(members@, label_prefix_spec(kind)) < u32::MAX,
    ensures
        s@ == label_prefix_spec(kind) + "-"@ + zero_padded(max_label(members@, label_prefix_spec(kind)) + 1, 3),
{
    proof {
        reveal_strlit("FR");
        reveal_strlit("NF");
        reveal_strlit("-");
    }
    let prefix = label_prefix(kind);
    let mut head = String::from_str(prefix);
    head.append("-");
    let ghost p = label_prefix_spec(kind);
    let mut max: u32 = 0;
    let mut i: usize = 0;
    while i < members.len()
        invariant
            i <= members@.len(),
            head@ == p + "-"@,
            p.len() == 2,
            head@.len() == 3,
            max == max_label(members@.take(i as int), p),
        decreases members.len() - i,
    {
        let cs = chars_of(members[i].label.as_str());
        assert(cs@.skip(0) =~= members@[i as int].label@);
        if prefix_at(&cs, head.as_str(), 0) {
            assert(cs@.skip(3) =~= members@[i as int].label@.skip((p.len() + 1) as int));
            match parse_u32_from(&cs, 3) {
                Some(n) => {
                    if n > max {
                        max = n;
                    }
                },
                None => {},
            }
        }
        assert(members@.take(i + 1).drop_last() =~= members@.take(i as int));
        i = i + 1;
    }
    assert(members@.take(members@.len() as int) =~= members@);
    let num = zero_padded_string((max + 1) as u64, 3);
    head.append(num.as_str());
    head
}

/// The highest member order, zero when none.
pub open spec fn max_order(members: Seq<Member>) -> nat
    decreases members.len(),
{
    if members.len() == 0 {
        0
    } else {
        let rest = max_order(members.drop_last());
        if members.last().order > rest { members.last().order as nat } else { rest }
    }
}

/// The order of a new member: one more than the highest.
pub fn next_order(members: &Vec<Member>) -> (n: u32)
    requires
        max_order(members@) < u32::MAX,
    ensures
        n == max_order(members@) + 1,
{
    let mut max: u32 = 0;
    let mut i: usize = 0;
    while i < members.len()
        invariant
            i <= members@.len(),
            max == max_order(members@.take(i as int)),
        decreases members.len() - i,
    {
        if members[i].order > max {
            max = members[i].order;
        }
        assert(members@.take(i + 1).drop_last() =~= members@.take(i as int));
        i = i + 1;
    }
    assert(members@.take(members@.len() as int) =~= members@);
    max + 1
}

/// An optional string by its characters.
pub open spec fn opt_str_view(o: Option<String>) -> Option<Seq<char>> {
    match o {
        Some(s) => Some(s@),
        None => None,
    }
}

/// The type of the last edge to `target`, if any.
pub open spec fn last_interaction_type(edges: Seq<Interaction>, target: Seq<char>) -> Option<Seq<char>>
    decreases edges.len(),
{
    if edges.len() == 0 {
        None
    } else if edges.last().target@ == target {
        Some(edges.last().kind@)
    } else {
        last_interaction_type(edges.drop_last(), target)
    }
}

/// Each edge's type keyed by its target; a target with several edges keeps
/// the last one's type.
pub fn interaction_types(edges: &Vec<Interaction>) -> (m: SortedMap<String>)
    ensures
        m.wf(),
        forall|t: Seq<char>| opt_str_view(#[trigger] lookup(m@, t)) == last_interaction_type(edges@, t),
{
    let mut m: SortedMap<String> = SortedMap::new();
    let mut i: usize = 0;
    while i < edges.len()
        invariant
            i <= edges@.len(),
            m.wf(),
            forall|t: Seq<char>| opt_str_view(#[trigger] lookup(m@, t)) == last_interaction_type(edges@.take(i as int), t),
        decreases edges.len() - i,
    {
        let ghost before = m@;
        let e = &edges[i];
        m.insert(e.target.clone(), e.kind.clone());
        proof {
            assert(edges@.take(i + 1).drop_last() =~= edges@.take(i as int));
            assert forall|t: Seq<char>| opt_str_view(#[trigger] lookup(m@, t)) == last_interaction_type(edges@.take(i + 1), t) by {
                lemma_insert_then_lookup(before, e.target@, e.kind, t);
                assert(opt_str_view(lookup(before, t)) == last_interaction_type(edges@.take(i as int), t));
            }
        }
        i = i + 1;
    }
    assert(edges@.take(edges@.len() as int) =~= edges@);
    m
}

/// `label: a, b` for a non-empty list, nothing for an empty one.
pub open spec fn list_line(label: Seq<char>, items: Seq<String>) -> Seq<char> {
    if items.len() == 0 {
        Seq::empty()
    } else {
        label + ": "@ + join_spec(views(items), ", "@) + "\n"@
    }
}

fn push_list_line(out: &mut String, label: &str, items: &Vec<String>)
    ensures
        final(out)@ == old(out)@ + list_line(label@, items@),
{
    if items.len() > 0 {
        out.append(label);
        out.append(": ");
        let j = join(items, ", ");
        out.append(j.as_str());
        out.append("\n");
    }
}

/// `label: value` for a present value.
pub open spec fn opt_line(label: Seq<char>, v: Option<String>) -> Seq<char> {
    match v {
        Some(x) => label + ": "@ + x@ + "\n"@,
        None => Seq::empty(),
    }
}

fn push_opt_line(out: &mut String, label: &str, v: &Option<String>)
    ensures
        final(out)@ == old(out)@ + opt_line(label@, *v),
{
    match v {
        Some(x) => {
            out.append(label);
            out.append(": ");
            out.append(x.as_str());
            out.append("\n");
        },
        None => {},
    }
}

/// `  - item` lines under a header, for a non-empty list.
pub open spec fn bullet_block(header: Seq<char>, items: Seq<String>) -> Seq<char> {
    if items.len() == 0 {
        Seq::empty()
    } else {
        header + concat_all(items.map_values(|x: String| "  - "@ + x@ + "\n"@))
    }
}

fn push_bullet_block(out: &mut String, header: &str, items: &Vec<String>)
    ensures
        final(out)@ == old(out)@ + bullet_block(header@, items@),
{
    if items.len() == 0 {
        return;
    }
    out.append(header);
    let ghost head = out@;
    let ghost f = |x: String| "  - "@ + x@ + "\n"@;
    let mut i: usize = 0;
    while i < items.len()
        invariant
            i <= items@.len(),
            f == (|x: String| "  - "@ + x@ + "\n"@),
            out@ == head + concat_all(items@.map_values(f).take(i as int)),
        decreases items.len() - i,
    {
        out.append("  - ");
        out.append(items[i].as_str());
        out.append("\n");
        i = i + 1;
        assert(items@.map_values(f).take(i as int).drop_last() =~= items@.map_values(f).take(i - 1));
    }
    assert(items@.map_values(f).take(i as int) =~= items@.map_values(f));
}

/// `  - <language> <identifier>`, then ` (<module>)` when there is one.
pub open spec fn source_line(s: Source) -> Seq<char> {
    "  - "@ + s.language@ + " "@ + s.identifier@ + (match s.module {
        Some(m) => " ("@ + m@ + ")"@,
        None => Seq::empty(),
    }) + "\n"@
}

/// The sources block of a spec, when it names any.
pub open spec fn sources_block(sources: Seq<Source>) -> Seq<char> {
    if sources.len() == 0 {
        Seq::empty()
    } else {
        "sources:\n"@ + concat_all(sources.map_values(|x: Source| source_line(x)))
    }
}

fn push_sources(out: &mut String, sources: &Vec<Source>)
    ensures
        final(out)@ == old(out)@ + sources_block(sources@),
{
    if sources.len() == 0 {
        return;
    }
    out.append("sources:\n");
    let ghost head = out@;
    let ghost f = |x: Source| source_line(x);
    let mut i: usize = 0;
    while i < sources.len()
        invariant
            i <= sources@.len(),
            f == (|x: Source| source_line(x)),
            out@ == head + concat_all(sources@.map_values(f).take(i as int)),
        decreases sources.len() - i,
    {
        let s = &sources[i];
        out.append("  - ");
        out.append(s.language.as_str());
        out.append(" ");
        out.append(s.identifier.as_str());
        match &s.module {
            Some(m) => {
                out.append(" (");
                out.append(m.as_str());
                out.append(")");
            },
            None => {},
        }
        out.append("\n");
        i = i + 1;
        assert(sources@.map_values(f).take(i as int).drop_last() =~= sources@.map_values(f).take(i - 1));
    }
    assert(sources@.map_values(f).take(i as int) =~= sources@.map_values(f));
}

/// The lines a spec's family shows: for a tech spec its C4 level, descent
/// and parent; for a product spec its product level and parent.
pub open spec fn lineage_lines(spec: Spec) -> Seq<char> {
    match spec.kind {
        SpecSubtype::Tech => (match spec.c4_level {
            Some(l) => "c4 level: "@ + c4_level_text(l) + "\n"@,
            None => Seq::empty(),
        }) + opt_line("descends from"@, spec.descends_from) + opt_line("parent"@, spec.parent),
        SpecSubtype::Product => (match spec.product_level {
            Some(l) => "product level: "@ + product_level_text(l) + "\n"@,
            None => Seq::empty(),
        }) + opt_line("parent"@, spec.parent),
    }
}

/// The identity and flat fields of a spec, ahead of its prose.
pub open spec fn spec_head(spec: Spec) -> Seq<char> {
    "`"@ + canonical_id_spec(subtype_prefix(spec.kind), spec.id as nat) + "` — "@ + spec.title@ + "\n"@
        + spec.slug@ + " · "@ + spec_status_text(spec.status) + " · "@
        + (match spec.kind { SpecSubtype::Product => "product"@, SpecSubtype::Tech => "tech"@ }) + "\n"@
        + list_line("tags"@, spec.tags@) + opt_line("category"@, spec.category) + lineage_lines(spec)
        + bullet_block("responsibilities:\n"@, spec.responsibilities@) + sources_block(spec.sources@)
}

/// One membered requirement: its heading, facet line, tags, statement and
/// acceptance criteria.
pub open spec fn member_block(m: Member, req: Requirement) -> Seq<char> {
    "\n### "@ + m.label@ + " ("@ + canonical_id_spec("REQ"@, req.id as nat) + ") — "@ + req.title@ + "\n\n"@
        + req.slug@ + " · "@ + req_kind_text(req.kind) + " · "@ + req_status_text(req.status) + "\n"@
        + list_line("tags"@, req.tags@)
        + (match req.description {
            Some(d) => "\n"@ + d@ + "\n"@,
            None => Seq::empty(),
        })
        + bullet_block("\nacceptance criteria:\n"@, req.acceptance_criteria@)
}

fn member_text(m: &Member, req: &Requirement) -> (s: String)
    ensures
        s@ == member_block(*m, *req),
{
    let mut s = String::from_str("\n### ");
    s.append(m.label.as_str());
    s.append(" (");
    let r = crate::requirement::canonical_id(req.id);
    s.append(r.as_str());
    s.append(") — ");
    s.append(req.title.as_str());
    s.append("\n\n");
    s.append(req.slug.as_str());
    s.append(" · ");
    s.append(req.kind.as_str());
    s.append(" · ");
    s.append(req.status.as_str());
    s.append("\n");
    push_list_line(&mut s, "tags", &req.tags);
    match &req.description {
        Some(d) => {
            s.append("\n");
            s.append(d.as_str());
            s.append("\n");
        },
        None => {},
    }
    push_bullet_block(&mut s, "\nacceptance criteria:\n", &req.acceptance_criteria);
    s
}

/// `idx` lists every member once, ordered by advisory order and, among equal
/// orders, by position: the order a stable sort by `order` gives.
pub open spec fn stable_order(members: Seq<(Member, Requirement)>, idx: Seq<int>) -> bool {
    &&& idx.len() == members.len()
    &&& forall|k: int| 0 <= k < idx.len() ==> 0 <= #[trigger] idx[k] < members.len()
    &&& forall|a: int, b: int| 0 <= a < b < idx.len() ==> {
        ||| members[idx[a]].0.order < members[idx[b]].0.order
        ||| (members[idx[a]].0.order == members[idx[b]].0.order && #[trigger] idx[a] < #[trigger] idx[b])
    }
}

/// The member blocks in the order `idx` gives.
pub open spec fn members_text(members: Seq<(Member, Requirement)>, idx: Seq<int>) -> Seq<char>
    decreases idx.len(),
{
    if idx.len() == 0 {
        Seq::empty()
    } else {
        members_text(members, idx.drop_last()) + member_block(members[idx.last()].0, members[idx.last()].1)
    }
}

/// `- target — type`, then `: notes` when there are notes.
pub open spec fn interaction_line(i: Interaction) -> Seq<char> {
    "- "@ + i.target@ + " — "@ + i.kind@ + (match i.notes {
        Some(n) => ": "@ + n@,
        None => Seq::empty(),
    }) + "\n"@
}

/// The outbound interactions block, omitted when there is none.
pub open spec fn interactions_block(edges: Seq<Interaction>) -> Seq<char> {
    if edges.len() == 0 {
        Seq::empty()
    } else {
        "\n## Interactions\n\n"@ + concat_all(edges.map_values(|x: Interaction| interaction_line(x)))
    }
}

/// The prose body verbatim, ended by a newline.
pub open spec fn body_text(body: Seq<char>) -> Seq<char> {
    if body.len() > 0 && body.last() == '\n' {
        body
    } else {
        body + "\n"@
    }
}

/// The spec's readable whole for the given member order.
pub open spec fn render_spec(spec: Spec, body: Seq<char>, members: Seq<(Member, Requirement)>, idx: Seq<int>, edges: Seq<Interaction>) -> Seq<char> {
    spec_head(spec) + "\n"@ + body_text(body) + "\n## Requirements\n"@ + members_text(members, idx)
        + interactions_block(edges)
}

fn stable_sort_members(members: &Vec<(Member, Requirement)>) -> (idx: Vec<usize>)
    ensures
        stable_order(members@, idx@.map_values(|k: usize| k as int)),
{
    let mut idx: Vec<usize> = Vec::new();
    let mut i: usize = 0;
    while i < members.len()
        invariant
            i <= members@.len(),
            idx@.len() == i,
            forall|k: int| 0 <= k < idx@.len() ==> #[trigger] idx@[k] < i,
            forall|a: int, b: int| 0 <= a < b < idx@.len() ==> {
                ||| members@[idx@[a] as int].0.order < members@[idx@[b] as int].0.order
                ||| (members@[idx@[a] as int].0.order == members@[idx@[b] as int].0.order && #[trigger] idx@[a] < #[trigger] idx@[b])
            },
        decreases members.len() - i,
    {
        let o = members[i].0.order;
        let mut p: usize = 0;
        while p < idx.len() && members[idx[p]].0.order <= o
            invariant
                p <= idx@.len(),
                i < members@.len(),
                o == members@[i as int].0.order,
                forall|k: int| 0 <= k < idx@.len() ==> #[trigger] idx@[k] < i,
                forall|k: int| 0 <= k < p ==> members@[#[trigger] idx@[k] as int].0.order <= o,
            decreases idx.len() - p,
        {
            p = p + 1;
        }
        let ghost before = idx@;
        idx.insert(p, i);
        proof {
            assert forall|a: int, b: int| 0 <= a < b < idx@.len() implies {
                ||| members@[idx@[a] as int].0.order < members@[idx@[b] as int].0.order
                ||| (members@[idx@[a] as int].0.order == members@[idx@[b] as int].0.order && #[trigger] idx@[a] < #[trigger] idx@[b])
            } by {
                if b == p {
                    assert(idx@[a] == before[a]);
                } else if a == p {
                    assert(idx@[b] == before[b - 1]);
                    if p < before.len() {
                        if b - 1 > p {
                            assert(idx@[p + 1] == before[p as int]);
                        }
                        assert(members@[before[p as int] as int].0.order > o);
                    }
                } else if a < p && b > p {
                    assert(idx@[a] == before[a]);
                    assert(idx@[b] == before[b - 1]);
                } else if a > p {
                    assert(idx@[a] == before[a - 1]);
                    assert(idx@[b] == before[b - 1]);
                } else {
                    assert(idx@[a] == before[a]);
                    assert(idx@[b] == before[b]);
                }
            }
            assert forall|k: int| 0 <= k < idx@.len() implies #[trigger] idx@[k] < i + 1 by {
                if k < p {
                    assert(idx@[k] == before[k]);
                } else if k > p {
                    assert(idx@[k] == before[k - 1]);
                }
            }
        }
        i = i + 1;
    }
    proof {
        let m = idx@.map_values(|k: usize| k as int);
        assert forall|a: int, b: int| 0 <= a < b < m.len() implies {
            ||| members@[m[a]].0.order < members@[m[b]].0.order
            ||| (members@[m[a]].0.order == members@[m[b]].0.order && #[trigger] m[a] < #[trigger] m[b])
        } by {
            assert(m[a] == idx@[a] as int && m[b] == idx@[b] as int);
        }
        assert forall|k: int| 0 <= k < m.len() implies 0 <= #[trigger] m[k] < members@.len() by {
            assert(m[k] == idx@[k] as int);
        }
    }
    idx
}

/// The identity, flat fields, responsibilities and sources of a spec.
fn spec_head_text(spec: &Spec) -> (out: String)
    ensures
        out@ == spec_head(*spec),
{
    let mut out = String::from_str("`");
    let c = spec.kind.canonical_id(spec.id);
    out.append(c.as_str());
    out.append("` — ");
    out.append(spec.title.as_str());
    out.append("\n");
    out.append(spec.slug.as_str());
    out.append(" · ");
    out.append(spec.status.as_str());
    out.append(" · ");
    out.append(spec.kind.label());
    out.append("\n");
    push_list_line(&mut out, "tags", &spec.tags);
    push_opt_line(&mut out, "category", &spec.category);
    match spec.kind {
        SpecSubtype::Tech => {
            match spec.c4_level {
                Some(l) => {
                    out.append("c4 level: ");
                    out.append(l.as_str());
                    out.append("\n");
                },
                None => {},
            }
            push_opt_line(&mut out, "descends from", &spec.descends_from);
            push_opt_line(&mut out, "parent", &spec.parent);
        },
        SpecSubtype::Product => {
            match spec.product_level {
                Some(l) => {
                    out.append("product level: ");
                    out.append(l.as_str());
                    out.append("\n");
                },
                None => {},
            }
            push_opt_line(&mut out, "parent", &spec.parent);
        },
    }
    push_bullet_block(&mut out, "responsibilities:\n", &spec.responsibilities);
    push_sources(&mut out, &spec.sources);
    assert(out@ =~= spec_head(*spec));
    out
}

/// Reassemble a spec into its readable whole: its identity and flat fields,
/// its prose verbatim, its members in advisory order (stable among equal
/// orders) with each requirement's facets, then its outbound interactions.
pub fn render(spec: &Spec, prose_body: &str, members: &Vec<(Member, Requirement)>, interactions: &Vec<Interaction>) -> (out: String)
    ensures
        exists|idx: Seq<int>| #[trigger] stable_order(members@, idx)
            && out@ == render_spec(*spec, prose_body@, members@, idx, interactions@),
{
    let mut out = spec_head_text(spec);
    out.append("\n");
    out.append(prose_body);
    let n = prose_body.unicode_len();
    if !(n > 0 && prose_body.get_char(n - 1) == '\n') {
        out.append("\n");
    }
    out.append("\n## Requirements\n");
    let ghost head = out@;
    let idx = stable_sort_members(members);
    let ghost gidx = idx@.map_values(|k: usize| k as int);
    let mut k: usize = 0;
    while k < idx.len()
        invariant
            k <= idx@.len(),
            gidx == idx@.map_values(|k: usize| k as int),
            stable_order(members@, gidx),
            out@ == head + members_text(members@, gidx.take(k as int)),
        decreases idx.len() - k,
    {
        let j = idx[k];
        assert(gidx[k as int] == j as int);
        let (m, req) = &members[j];
        let t = member_text(m, req);
        out.append(t.as_str());
        k = k + 1;
        assert(gidx.take(k as int).drop_last() =~= gidx.take(k - 1));
    }
    assert(gidx.take(k as int) =~= gidx);
    if interactions.len() > 0 {
        out.append("\n## Interactions\n\n");
        let ghost head2 = out@;
        let ghost f = |x: Interaction| interaction_line(x);
        let mut i: usize = 0;
        while i < interactions.len()
            invariant
                i <= interactions@.len(),
                f == (|x: Interaction| interaction_line(x)),
                out@ == head2 + concat_all(interactions@.map_values(f).take(i as int)),
            decreases interactions.len() - i,
        {
            let e = &interactions[i];
            out.append("- ");
            out.append(e.target.as_str());
            out.append(" — ");
            out.append(e.kind.as_str());
            match &e.notes {
                Some(nt) => {
                    out.append(": ");
                    out.append(nt.as_str());
                },
                None => {},
            }
            out.append("\n");
            i = i + 1;
            assert(interactions@.map_values(f).take(i as int).drop_last() =~= interactions@.map_values(f).take(i - 1));
        }
        assert(interactions@.map_values(f).take(i as int) =~= interactions@.map_values(f));
    }
    assert(out@ =~= render_spec(*spec, prose_body@, members@, gidx, interactions@));
    out
}

/// Position `a` comes before position `b` in a stable sort by advisory
/// order: a lower order, or the same order and an earlier position.
pub open spec fn key_before(members: Seq<(Member, Requirement)>, a: int, b: int) -> bool {
    members[a].0.order < members[b].0.order || (members[a].0.order == members[b].0.order && a < b)
}

/// Two listings of positions, each strictly ascending by `key_before` and
/// holding the same positions, are the same listing.
proof fn lemma_key_ascending_unique(members: Seq<(Member, Requirement)>, s: Seq<int>, t: Seq<int>)
    requires
        forall|a: int, b: int| 0 <= a < b < s.len() ==> key_before(members, #[trigger] s[a], #[trigger] s[b]),
        forall|a: int, b: int| 0 <= a < b < t.len() ==> key_before(members, #[trigger] t[a], #[trigger] t[b]),
        s.to_set() == t.to_set(),
    ensures
        s == t,
    decreases s.len(),
{
    if s.len() == 0 {
        if t.len() > 0 {
            assert(t.to_set().contains(t[0]));
        }
        assert(s =~= t);
    } else {
        assert(s.to_set().contains(s[0]));
        assert(t.to_set().contains(s[0]));
        let j = choose|j: int| 0 <= j < t.len() && t[j] == s[0];
        assert(t.to_set().contains(t[0]));
        assert(s.to_set().contains(t[0]));
        let i = choose|i: int| 0 <= i < s.len() && s[i] == t[0];
        if j > 0 {
            assert(key_before(members, t[0], t[j]));
            if i > 0 {
                assert(key_before(members, s[0], s[i]));
            }
        }
        assert(t[0] == s[0]);
        let s1 = s.drop_first();
        let t1 = t.drop_first();
        assert forall|a: int, b: int| 0 <= a < b < s1.len() implies key_before(members, #[trigger] s1[a], #[trigger] s1[b]) by {
            assert(s1[a] == s[a + 1] && s1[b] == s[b + 1]);
        }
        assert forall|a: int, b: int| 0 <= a < b < t1.len() implies key_before(members, #[trigger] t1[a], #[trigger] t1[b]) by {
            assert(t1[a] == t[a + 1] && t1[b] == t[b + 1]);
        }
        assert(s1.to_set() =~= t1.to_set()) by {
            assert forall|x: int| s1.to_set().contains(x) implies t1.to_set().contains(x) by {
                let a = choose|a: int| 0 <= a < s1.len() && s1[a] == x;
                assert(s[a + 1] == x);
                assert(key_before(members, s[0], x));
                assert(t.to_set().contains(x));
                let b = choose|b: int| 0 <= b < t.len() && t[b] == x;
                assert(t1[b - 1] == x);
            }
            assert forall|x: int| t1.to_set().contains(x) implies s1.to_set().contains(x) by {
                let a = choose|a: int| 0 <= a < t1.len() && t1[a] == x;
                assert(t[a + 1] == x);
                assert(key_before(members, t[0], x));
                assert(s.to_set().contains(x));
                let b = choose|b: int| 0 <= b < s.len() && s[b] == x;
                assert(s1[b - 1] == x);
            }
        }
        lemma_key_ascending_unique(members, s1, t1);
        assert(s =~= seq![s[0]] + s1);
        assert(t =~= seq![t[0]] + t1);
    }
}

/// A stable order lists every position exactly once.
proof fn lemma_stable_order_covers(members: Seq<(Member, Requirement)>, idx: Seq<int>)
    requires
        stable_order(members, idx),
    ensures
        idx.to_set() == vstd::set_lib::set_int_range(0, members.len() as int),
{
    assert(idx.no_duplicates()) by {
        assert forall|a: int, b: int| 0 <= a < idx.len() && 0 <= b < idx.len() && a != b implies idx[a] != idx[b] by {
            if a < b {
                assert(key_before(members, idx[a], idx[b]));
            } else {
                assert(key_before(members, idx[b], idx[a]));
            }
        }
    }
    idx.unique_seq_to_set();
    vstd::set_lib::lemma_int_range(0, members.len() as int);
    let r = vstd::set_lib::set_int_range(0, members.len() as int);
    assert(idx.to_set().subset_of(r)) by {
        assert forall|x: int| idx.to_set().contains(x) implies r.contains(x) by {
            let k = choose|k: int| 0 <= k < idx.len() && idx[k] == x;
            assert(0 <= idx[k] < members.len());
        }
    }
    vstd::seq_lib::seq_to_set_is_finite(idx);
    vstd::set_lib::lemma_subset_equality(idx.to_set(), r);
}

/// A stable sort by advisory order has one outcome, so the rendered spec is
/// determined by its inputs.
pub proof fn lemma_stable_order_unique(members: Seq<(Member, Requirement)>, idx: Seq<int>, other: Seq<int>)
    requires
        stable_order(members, idx),
        stable_order(members, other),
    ensures
        idx == other,
{
    lemma_stable_order_covers(members, idx);
    lemma_stable_order_covers(members, other);
    assert forall|a: int, b: int| 0 <= a < b < idx.len() implies key_before(members, #[trigger] idx[a], #[trigger] idx[b]) by {}
    assert forall|a: int, b: int| 0 <= a < b < other.len() implies key_before(members, #[trigger] other[a], #[trigger] other[b]) by {}
    lemma_key_ascending_unique(members, idx, other);
}

} // verus!
