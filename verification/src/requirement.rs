//! The requirement fields a spec's rendering and rosters read.

use vstd::prelude::*;
use crate::listing::canonical_id_spec;
use crate::text::{chars_of, parse_u32_from, parse_u32_spec, rfind_between, rfind_seq, str_eq, string_of_range};

verus! {

/// A requirement's kind: functional, or a quality attribute.
#[derive(Debug, Clone, Copy, PartialEq, Eq, Structural)]
pub enum ReqKind {
    Functional,
    Quality,
}

/// The stored spelling of a requirement kind.
pub open spec fn req_kind_text(k: ReqKind) -> Seq<char> {
    match k {
        ReqKind::Functional => "functional"@,
        ReqKind::Quality => "quality"@,
    }
}

impl ReqKind {
    /// The stored spelling (`functional`, `quality`).
    pub fn as_str(self) -> (s: &'static str)
        ensures
            s@ == req_kind_text(self),
    {
        match self {
            ReqKind::Functional => "functional",
            ReqKind::Quality => "quality",
        }
    }
}

/// A requirement's lifecycle status.
#[derive(Debug, Clone, Copy, PartialEq, Eq, Structural)]
pub enum ReqStatus {
    Pending,
    Active,
}

/// The stored spelling of a requirement status.
pub open spec fn req_status_text(s: ReqStatus) -> Seq<char> {
    match s {
        ReqStatus::Pending => "pending"@,
        ReqStatus::Active => "active"@,
    }
}

impl ReqStatus {
    /// The stored spelling (`pending`, `active`).
    pub fn as_str(self) -> (s: &'static str)
        ensures
            s@ == req_status_text(self),
    {
        match self {
            ReqStatus::Pending => "pending",
            ReqStatus::Active => "active",
        }
    }
}

/// A requirement as a spec renders it.
#[derive(Debug, Clone)]
pub struct Requirement {
    pub id: u32,
    pub title: String,
    pub slug: String,
    pub status: ReqStatus,
    pub kind: ReqKind,
    pub description: Option<String>,
    pub tags: Vec<String>,
    pub acceptance_criteria: Vec<String>,
}

/// The `REQ-NNN` canonical id of a requirement.
pub fn canonical_id(id: u32) -> (s: String)
    ensures
        s@ == canonical_id_spec("REQ"@, id as nat),
{
    crate::listing::canonical_id("REQ", id)
}

/// The id a requirement FK names when it is a `REQ-<number>` ref (the number
/// padded or not).
pub open spec fn resolve_fk_spec(r: Seq<char>) -> Option<u32> {
    match rfind_seq(r, "-"@) {
        None => None,
        Some(j) => if r.take(j as int) == "REQ"@ {
            parse_u32_spec(r.skip((j + 1) as int))
        } else {
            None
        },
    }
}

/// A requirement FK in its canonical `REQ-NNN` form when it resolves;
/// anything else unchanged, so a check can still flag it as dangling.
pub open spec fn canonicalize_fk_spec(r: Seq<char>) -> Seq<char> {
    match resolve_fk_spec(r) {
        Some(n) => canonical_id_spec("REQ"@, n as nat),
        None => r,
    }
}

/// Canonicalise a stored requirement FK (`REQ-1` → `REQ-001`), leaving one
/// that does not resolve as it is.
pub fn canonicalize_fk(raw: &str) -> (s: String)
    ensures
        s@ == canonicalize_fk_spec(raw@),
{
    proof {
        reveal_strlit("-");
    }
    let cs = chars_of(raw);
    let dash = chars_of("-");
    let n = cs.len();
    assert(cs@.subrange(0, n as int) =~= raw@);
    match rfind_between(&cs, &dash, 0, n) {
        None => String::from_str(raw),
        Some(j) => {
            let prefix = string_of_range(&cs, 0, j);
            assert(prefix@ =~= raw@.take(j as int));
            if !str_eq(prefix.as_str(), "REQ") {
                return String::from_str(raw);
            }
            assert(cs@.skip(j + 1) =~= raw@.skip(j + 1));
            match parse_u32_from(&cs, j + 1) {
                None => String::from_str(raw),
                Some(id) => canonical_id(id),
            }
        },
    }
}

} // verus!
