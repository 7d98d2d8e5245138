//! TOML literal escaping for user text spliced into scaffolded documents.

use vstd::prelude::*;
use crate::text::{join_spec, views, join};

verus! {

/// The TOML string literal the `toml` crate writes for `s`.
pub uninterp spec fn toml_string_literal(s: Seq<char>) -> Seq<char>;

/// `s` as a quoted, escaped TOML string literal, written by the `toml`
/// crate's own serializer (`toml::Value::String(..).to_string()`); the result
/// is that serializer's literal for `s`.
#[verifier::external_body]
pub fn toml_string(s: &str) -> (r: String)
    ensures
        r@ == toml_string_literal(s@),
{
    toml::Value::String(s.to_owned()).to_string()
}

/// The inside of a TOML array literal: each element as a string literal,
/// joined by `, `.
pub fn toml_array_inner(xs: &Vec<String>) -> (r: String)
    ensures
        r@ == join_spec(xs@.map_values(|x: String| toml_string_literal(x@)), ", "@),
{
    let ghost f = |x: String| toml_string_literal(x@);
    let mut parts: Vec<String> = Vec::new();
    let mut i: usize = 0;
    while i < xs.len()
        invariant
            i <= xs@.len(),
            parts@.len() == i,
            f == (|x: String| toml_string_literal(x@)),
            views(parts@) == xs@.map_values(f).take(i as int),
        decreases xs.len() - i,
    {
        let lit = toml_string(xs[i].as_str());
        let ghost before = parts@;
        parts.push(lit);
        proof {
            assert forall|k: int| 0 <= k < i implies #[trigger] views(parts@)[k] == views(before)[k] by {
                assert(parts@[k] == before[k]);
            }
        }
        i = i + 1;
        assert(views(parts@) =~= xs@.map_values(f).take(i as int));
    }
    assert(xs@.map_values(f).take(xs@.len() as int) =~= xs@.map_values(f));
    join(&parts, ", ")
}

} // verus!
