//! The spec registry the FK-integrity pass checks: the requirement ids and
//! product and tech spec ids, and every outbound edge a spec authors — its
//! descent and parent, its member requirements, and a tech spec's
//! interactions — each target in canonical form. A spec declaring two
//! parents is carried as a finding instead.

use vstd::prelude::*;
use crate::listing::canonical_id_spec;
use crate::requirement::{canonicalize_fk, canonicalize_fk_spec};
use crate::sorted::SortedSet;
use crate::spec::{canonicalize_spec_ref, canonicalize_spec_ref_spec, subtype_prefix, SpecSubtype};

verus! {

/// A spec's `descends_from` edge; `on_product` marks a product spec that
/// carries one.
#[derive(Debug, Clone, PartialEq, Eq)]
pub struct DescentEdge {
    pub spec: String,
    pub target: String,
    pub on_product: bool,
}

/// A spec's `parent` edge.
#[derive(Debug, Clone, PartialEq, Eq)]
pub struct ParentEdge {
    pub spec: String,
    pub parent: String,
    pub on_product: bool,
}

/// A spec's membership of a requirement, with its sticky label.
#[derive(Debug, Clone, PartialEq, Eq)]
pub struct MemberEdge {
    pub spec: String,
    pub requirement: String,
    pub label: String,
}

/// A tech spec's interaction with another spec.
#[derive(Debug, Clone, PartialEq, Eq)]
pub struct InteractionEdge {
    pub spec: String,
    pub target: String,
}

/// A spec that could not be harvested, with why.
#[derive(Debug, Clone, PartialEq, Eq)]
pub struct BuildFinding {
    pub spec: String,
    pub message: String,
}

/// What the scan gathered.
pub struct Registry {
    pub requirements: SortedSet,
    pub product_specs: SortedSet,
    pub tech_specs: SortedSet,
    pub descents: Vec<DescentEdge>,
    pub parents: Vec<ParentEdge>,
    pub members: Vec<MemberEdge>,
    pub interactions: Vec<InteractionEdge>,
    pub build_findings: Vec<BuildFinding>,
}

/// The outbound fields of one parsed spec: its descent and parent refs as
/// authored, its members as `(requirement FK, label)`, and its interaction
/// targets (none for a product spec, which has no interactions file).
pub struct SpecFacts {
    pub descends_from: Option<String>,
    pub parent: Option<String>,
    pub members: Vec<(String, String)>,
    pub interactions: Vec<String>,
}

/// How a spec's TOML parsed: into its facts, or refused as declaring a
/// second parent.
pub enum SpecParse {
    Parsed(SpecFacts),
    SecondParent,
}

/// The descent edges as plain values.
pub open spec fn descent_views(v: Seq<DescentEdge>) -> Seq<(Seq<char>, Seq<char>, bool)> {
    v.map_values(|e: DescentEdge| (e.spec@, e.target@, e.on_product))
}

/// The parent edges as plain values.
pub open spec fn parent_views(v: Seq<ParentEdge>) -> Seq<(Seq<char>, Seq<char>, bool)> {
    v.map_values(|e: ParentEdge| (e.spec@, e.parent@, e.on_product))
}

/// The member edges as plain values.
pub open spec fn member_views(v: Seq<MemberEdge>) -> Seq<(Seq<char>, Seq<char>, Seq<char>)> {
    v.map_values(|e: MemberEdge| (e.spec@, e.requirement@, e.label@))
}

/// The interaction edges as plain values.
pub open spec fn interaction_views(v: Seq<InteractionEdge>) -> Seq<(Seq<char>, Seq<char>)> {
    v.map_values(|e: InteractionEdge| (e.spec@, e.target@))
}

/// The findings as plain values.
pub open spec fn finding_views(v: Seq<BuildFinding>) -> Seq<(Seq<char>, Seq<char>)> {
    v.map_values(|e: BuildFinding| (e.spec@, e.message@))
}

impl Registry {
    /// The three id sets are well formed.
    pub open spec fn wf(&self) -> bool {
        self.requirements.wf() && self.product_specs.wf() && self.tech_specs.wf()
    }
}

/// An empty registry.
pub fn registry_new() -> (r: Registry)
    ensures
        r.wf(),
        r.requirements@ == Seq::<Seq<char>>::empty(),
        r.product_specs@ == Seq::<Seq<char>>::empty(),
        r.tech_specs@ == Seq::<Seq<char>>::empty(),
        r.descents@.len() == 0,
        r.parents@.len() == 0,
        r.members@.len() == 0,
        r.interactions@.len() == 0,
        r.build_findings@.len() == 0,
{
    Registry {
        requirements: SortedSet::new(),
        product_specs: SortedSet::new(),
        tech_specs: SortedSet::new(),
        descents: Vec::new(),
        parents: Vec::new(),
        members: Vec::new(),
        interactions: Vec::new(),
        build_findings: Vec::new(),
    }
}

/// Record requirement `id`, by its canonical `REQ-NNN` id.
pub fn add_requirement(reg: &mut Registry, id: u32)
    requires
        old(reg).wf(),
    ensures
        final(reg).wf(),
        forall|x: Seq<char>| #[trigger] final(reg).requirements@.contains(x) <==> (old(reg).requirements@.contains(x)
            || x == canonical_id_spec("REQ"@, id as nat)),
        final(reg).product_specs@ == old(reg).product_specs@,
        final(reg).tech_specs@ == old(reg).tech_specs@,
        final(reg).descents@ == old(reg).descents@,
        final(reg).parents@ == old(reg).parents@,
        final(reg).members@ == old(reg).members@,
        final(reg).interactions@ == old(reg).interactions@,
        final(reg).build_findings@ == old(reg).build_findings@,
{
    let c = crate::requirement::canonical_id(id);
    reg.requirements.insert(c);
}

/// The finding of a spec declaring more than one parent.
pub open spec fn second_parent_message(spec: Seq<char>) -> Seq<char> {
    "second parent: "@ + spec + " declares more than one parent"@
}

/// What one spec adds to the edges: its descent, then its parent, each with
/// its target canonicalised and marked when the spec is a product spec.
pub open spec fn descent_added(spec: Seq<char>, on_product: bool, d: Option<String>) -> Seq<(Seq<char>, Seq<char>, bool)> {
    match d {
        Some(t) => seq![(spec, canonicalize_spec_ref_spec(t@), on_product)],
        None => Seq::empty(),
    }
}

/// Each member as an edge from `spec`, its requirement FK canonicalised and
/// its label kept.
pub open spec fn members_added(spec: Seq<char>, members: Seq<(String, String)>) -> Seq<(Seq<char>, Seq<char>, Seq<char>)> {
    members.map_values(|m: (String, String)| (spec, canonicalize_fk_spec(m.0@), m.1@))
}

/// Each interaction target as an edge from `spec`, canonicalised.
pub open spec fn interactions_added(spec: Seq<char>, targets: Seq<String>) -> Seq<(Seq<char>, Seq<char>)> {
    targets.map_values(|t: String| (spec, canonicalize_spec_ref_spec(t@)))
}

/// Harvest one spec, `subtype` number `id`, into the registry. A spec
/// declaring a second parent adds only a finding. A parsed spec adds its
/// descent and parent edges (both fields are harvested for either subtype,
/// marked when the spec is a product spec), an edge per member, and its id
/// to the tech or product set; a tech spec also adds an edge per
/// interaction. Every target is canonicalised; one that does not resolve is
/// kept as authored, for the check to flag.
pub fn add_spec(reg: &mut Registry, subtype: SpecSubtype, id: u32, parsed: &SpecParse)
    requires
        old(reg).wf(),
    ensures
        final(reg).wf(),
        final(reg).requirements@ == old(reg).requirements@,
        ({
            let spec = canonical_id_spec(subtype_prefix(subtype), id as nat);
            let on_product = subtype == SpecSubtype::Product;
            match *parsed {
                SpecParse::SecondParent => {
                    &&& finding_views(final(reg).build_findings@) == finding_views(old(reg).build_findings@).push(
                        (spec, second_parent_message(spec)))
                    &&& final(reg).product_specs@ == old(reg).product_specs@
                    &&& final(reg).tech_specs@ == old(reg).tech_specs@
                    &&& final(reg).descents@ == old(reg).descents@
                    &&& final(reg).parents@ == old(reg).parents@
                    &&& final(reg).members@ == old(reg).members@
                    &&& final(reg).interactions@ == old(reg).interactions@
                },
                SpecParse::Parsed(f) => {
                    &&& final(reg).build_findings@ == old(reg).build_findings@
                    &&& descent_views(final(reg).descents@) == descent_views(old(reg).descents@)
                        + descent_added(spec, on_product, f.descends_from)
                    &&& parent_views(final(reg).parents@) == parent_views(old(reg).parents@)
                        + descent_added(spec, on_product, f.parent)
                    &&& member_views(final(reg).members@) == member_views(old(reg).members@)
                        + members_added(spec, f.members@)
                    &&& (on_product ==> {
                        &&& forall|x: Seq<char>| #[trigger] final(reg).product_specs@.contains(x)
                            <==> (old(reg).product_specs@.contains(x) || x == spec)
                        &&& final(reg).tech_specs@ == old(reg).tech_specs@
                        &&& final(reg).interactions@ == old(reg).interactions@
                    })
                    &&& (!on_product ==> {
                        &&& forall|x: Seq<char>| #[trigger] final(reg).tech_specs@.contains(x)
                            <==> (old(reg).tech_specs@.contains(x) || x == spec)
                        &&& final(reg).product_specs@ == old(reg).product_specs@
                        &&& interaction_views(final(reg).interactions@) == interaction_views(old(reg).interactions@)
                            + interactions_added(spec, f.interactions@)
                    })
                },
            }
        }),
{
    let ghost r0 = *reg;
    let spec = subtype.canonical_id(id);
    let on_product = match subtype {
        SpecSubtype::Product => true,
        SpecSubtype::Tech => false,
    };
    match parsed {
        SpecParse::SecondParent => {
            let mut message = String::from_str("second parent: ");
            message.append(spec.as_str());
            message.append(" declares more than one parent");
            let ghost before = finding_views(reg.build_findings@);
            reg.build_findings.push(BuildFinding { spec, message });
            assert(finding_views(reg.build_findings@) =~= before.push((finding_views(reg.build_findings@).last())));
        },
        SpecParse::Parsed(f) => {
            let ghost d0 = descent_views(reg.descents@);
            match &f.descends_from {
                Some(t) => {
                    reg.descents.push(DescentEdge { spec: spec.clone(), target: canonicalize_spec_ref(t.as_str()), on_product });
                    assert(descent_views(reg.descents@) =~= d0 + descent_added(spec@, on_product, f.descends_from));
                },
                None => {
                    assert(descent_views(reg.descents@) =~= d0 + descent_added(spec@, on_product, f.descends_from));
                },
            }
            let ghost p0 = parent_views(reg.parents@);
            match &f.parent {
                Some(t) => {
                    reg.parents.push(ParentEdge { spec: spec.clone(), parent: canonicalize_spec_ref(t.as_str()), on_product });
                    assert(parent_views(reg.parents@) =~= p0 + descent_added(spec@, on_product, f.parent));
                },
                None => {
                    assert(parent_views(reg.parents@) =~= p0 + descent_added(spec@, on_product, f.parent));
                },
            }
            let ghost m0 = member_views(reg.members@);
            let ghost old_descents = reg.descents;
            let ghost old_parents = reg.parents;
            let mut i: usize = 0;
            while i < f.members.len()
                invariant
                    i <= f.members@.len(),
                    reg.requirements == r0.requirements,
                    reg.product_specs == r0.product_specs,
                    reg.tech_specs == r0.tech_specs,
                    reg.build_findings == r0.build_findings,
                    reg.interactions == r0.interactions,
                    reg.descents == old_descents,
                    reg.parents == old_parents,
                    member_views(reg.members@) == m0 + members_added(spec@, f.members@.take(i as int)),
                decreases f.members.len() - i,
            {
                let (req, label) = &f.members[i];
                let ghost before = member_views(reg.members@);
                reg.members.push(MemberEdge { spec: spec.clone(), requirement: canonicalize_fk(req.as_str()), label: label.clone() });
                proof {
                    assert(f.members@.take(i + 1) =~= f.members@.take(i as int).push(f.members@[i as int]));
                    assert(members_added(spec@, f.members@.take(i + 1)) =~= members_added(spec@, f.members@.take(i as int)).push(
                        (spec@, canonicalize_fk_spec(req@), label@)));
                    assert(member_views(reg.members@) =~= before.push((spec@, canonicalize_fk_spec(req@), label@)));
                }
                i = i + 1;
            }
            assert(f.members@.take(f.members@.len() as int) =~= f.members@);
            if on_product {
                reg.product_specs.insert(spec);
            } else {
                let ghost x0 = interaction_views(reg.interactions@);
                let ghost old_members = reg.members;
                let mut k: usize = 0;
                while k < f.interactions.len()
                    invariant
                        k <= f.interactions@.len(),
                        reg.requirements == r0.requirements,
                        reg.product_specs == r0.product_specs,
                        reg.tech_specs == r0.tech_specs,
                        reg.build_findings == r0.build_findings,
                        reg.members == old_members,
                        reg.descents == old_descents,
                        reg.parents == old_parents,
                        interaction_views(reg.interactions@) == x0 + interactions_added(spec@, f.interactions@.take(k as int)),
                    decreases f.interactions.len() - k,
                {
                    let t = &f.interactions[k];
                    let ghost before = interaction_views(reg.interactions@);
                    reg.interactions.push(InteractionEdge { spec: spec.clone(), target: canonicalize_spec_ref(t.as_str()) });
                    proof {
                        assert(f.interactions@.take(k + 1) =~= f.interactions@.take(k as int).push(f.interactions@[k as int]));
                        assert(interactions_added(spec@, f.interactions@.take(k + 1)) =~= interactions_added(spec@,
                            f.interactions@.take(k as int)).push((spec@, canonicalize_spec_ref_spec(t@))));
                        assert(interaction_views(reg.interactions@) =~= before.push((spec@, canonicalize_spec_ref_spec(t@))));
                    }
                    k = k + 1;
                }
                assert(f.interactions@.take(f.interactions@.len() as int) =~= f.interactions@);
                reg.tech_specs.insert(spec);
            }
        },
    }
}

} // verus!
