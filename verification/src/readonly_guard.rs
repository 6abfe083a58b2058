//! The read-only guard: blocks write operations while the instance is
//! in read-only mode.

use vstd::prelude::*;

use crate::strutil::str_eq;

verus! {

/// Whether an action mutates state.
pub open spec fn write_action(a: Seq<char>) -> bool {
    a == "create"@ || a == "update"@ || a == "delete"@
}

/// The read-only guard, off by default.
pub struct ReadonlyGuardBlock {
    pub enabled: bool,
}

impl ReadonlyGuardBlock {
    pub fn new() -> (r: Self)
        ensures
            !r.enabled,
    {
        ReadonlyGuardBlock { enabled: false }
    }

    /// The read-only flag in force: `true` or `1` in configuration
    /// turns it on, anything else configured turns it off, nothing
    /// configured keeps the block default.
    pub fn readonly_enabled(&self, cfg: Option<&str>) -> (r: bool)
        ensures
            r == match cfg {
                Some(s) => s@ == "true"@ || s@ == "1"@,
                None => self.enabled,
            },
    {
        match cfg {
            Some(s) => str_eq(s, "true") || str_eq(s, "1"),
            None => self.enabled,
        }
    }

    /// Whether a request must be refused: only write actions, and only
    /// in read-only mode.
    pub fn handle(readonly: bool, action: &str) -> (r: bool)
        ensures
            r <==> readonly && write_action(action@),
    {
        if !readonly {
            return false;
        }
        str_eq(action, "create") || str_eq(action, "update") || str_eq(action, "delete")
    }
}

} // verus!
