//! A slice's lifecycle transition written into its held `slice-NNN.toml`: the
//! move is gated first, a no-op writes nothing, a sheet without its `status`
//! and `updated` keys is refused, and otherwise both are set in place.

use vstd::prelude::*;
use crate::lifecycle::Transition;
use crate::slice::{gate_slice_transition, transition_gate_spec};
use crate::text::{zero_padded, zero_padded_string};
use crate::tomldoc::{doc_keys, doc_strings, doc_arrays, doc_table_arrays, doc_contains_key,
    doc_set_str};

verus! {

/// The refusal of a slice whose `status` or `updated` key is missing.
pub open spec fn malformed_hint(id: nat) -> Seq<char> {
    "malformed slice "@ + zero_padded(id, 3)
        + ": missing `status`/`updated` — restore the missing keys and retry; the file is left untouched"@
}

/// The slice's toml has both keys a transition writes.
pub open spec fn has_status_keys(d: toml_edit::DocumentMut) -> bool {
    doc_keys(d).contains("status"@) && doc_keys(d).contains("updated"@)
}

/// `new` is `old` with `status` set to `to` and `updated` to `today`.
pub open spec fn status_written(old: toml_edit::DocumentMut, new: toml_edit::DocumentMut, to: Seq<char>, today: Seq<char>) -> bool {
    &&& doc_keys(new) == doc_keys(old)
    &&& doc_strings(new) == doc_strings(old).insert("status"@, to).insert("updated"@, today)
    &&& doc_arrays(new) == doc_arrays(old).remove("status"@).remove("updated"@)
    &&& doc_table_arrays(new) == doc_table_arrays(old).remove("status"@).remove("updated"@)
}

/// Write slice `id`'s move from `from` (its current status) to `to` into its
/// held toml. A refused move (leaving a terminal status, breaching the
/// closure seam) is an error naming the slice; a no-op (`from == to`) writes
/// nothing and gives `false`; a toml missing `status` or `updated` is refused;
/// otherwise `status` and `updated` are set and the result is `true`. The
/// document is unchanged whenever nothing is written.
pub fn set_slice_status(doc: &mut toml_edit::DocumentMut, id: u32, from: &str, to: &str, today: &str) -> (r: Result<bool, String>)
    ensures
        transition_gate_spec(id as nat, from@, to@) matches Err(m) ==> (r matches Err(e) && e@ == m),
        transition_gate_spec(id as nat, from@, to@) is Ok && from@ == to@ ==> r == Ok::<bool, String>(false),
        transition_gate_spec(id as nat, from@, to@) is Ok && from@ != to@ && !has_status_keys(*old(doc))
            ==> (r matches Err(e) && e@ == malformed_hint(id as nat)),
        transition_gate_spec(id as nat, from@, to@) is Ok && from@ != to@ && has_status_keys(*old(doc))
            ==> r == Ok::<bool, String>(true) && status_written(*old(doc), *final(doc), to@, today@),
        !(r == Ok::<bool, String>(true)) ==> *final(doc) == *old(doc),
{
    proof {
        reveal_strlit("status");
        reveal_strlit("updated");
    }
    let ghost d0 = *doc;
    let kind = match gate_slice_transition(id, from, to) {
        Ok(k) => k,
        Err(m) => {
            return Err(m);
        },
    };
    if kind == Transition::Noop {
        return Ok(false);
    }
    proof {
        assert(from@ != to@);
    }
    if !(doc_contains_key(doc, "status") && doc_contains_key(doc, "updated")) {
        let mut m = String::from_str("malformed slice ");
        let n = zero_padded_string(id as u64, 3);
        m.append(n.as_str());
        m.append(": missing `status`/`updated` — restore the missing keys and retry; the file is left untouched");
        return Err(m);
    }
    doc_set_str(doc, "status", to);
    doc_set_str(doc, "updated", today);
    proof {
        assert(doc_keys(*doc) =~= doc_keys(d0));
    }
    Ok(true)
}

} // verus!
