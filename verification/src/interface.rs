//! The pluggable name-comparison interface. Any implementation must compute
//! the case-folded person-name distance, so the orchestrator's contract
//! holds whichever comparator is plugged in.

use vstd::prelude::*;
use crate::funcs;
use crate::name_checker;

verus! {

/// A name comparator for person names given with initials.
pub trait SmartNameChecker {
    /// Compares a text-side name with a registry-side name; the result is
    /// the case-folded person-name distance, saturating at `usize::MAX`.
    fn compare_names(&self, name_text: &str, name_registry: &str) -> (r: usize)
        ensures
            r == funcs::sat_usize(
                name_checker::person_distance(name_text@, name_registry@, true),
            ),
    ;
}

} // verus!
