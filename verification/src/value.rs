//! The value facet's unit: the configured one, or the default.

use vstd::prelude::*;

verus! {

/// The unit used when none is configured.
pub const DEFAULT_VALUE_UNIT: &'static str = "magic_beans";

/// The `[value]` table of the project config.
#[derive(Debug, Clone)]
pub struct ValueConfig {
    pub unit: Option<String>,
}

impl Default for ValueConfig {
    /// No unit configured.
    fn default() -> (c: Self)
        ensures
            c.unit is None,
    {
        ValueConfig { unit: None }
    }
}

/// The unit values are shown in: the configured one unless absent or empty,
/// else the default.
pub fn resolve_unit(cfg: &ValueConfig) -> (u: String)
    ensures
        u@ == match cfg.unit {
            Some(unit) if unit@.len() > 0 => unit@,
            _ => DEFAULT_VALUE_UNIT@,
        },
{
    match &cfg.unit {
        Some(unit) => {
            if unit.as_str().unicode_len() > 0 {
                unit.clone()
            } else {
                String::from_str(DEFAULT_VALUE_UNIT)
            }
        },
        None => String::from_str(DEFAULT_VALUE_UNIT),
    }
}

} // verus!
