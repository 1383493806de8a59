//! The default name comparator: surname, initials and alias matching with
//! case-folded token-set distances.

use vstd::prelude::*;
use crate::funcs;
use crate::interface::SmartNameChecker;
use crate::name_checker;
use crate::text;

verus! {

/// The stateless default comparator.
pub struct NameChecker {}

impl NameChecker {
    pub fn new() -> (r: Self) {
        NameChecker {  }
    }

    /// Lower-cases, strips periods and quotes, and collapses whitespace.
    pub fn normalize_text(&self, s: &str) -> (r: String)
        ensures
            r@ == name_checker::normalize_text_spec(s@),
    {
        name_checker::normalize_text(s)
    }

    /// Strips the feminine declension suffixes the reference rule looks
    /// for.
    pub fn normalize_surname(&self, s: &str) -> (r: String)
        ensures
            r@ == name_checker::normalize_surname_spec(s@),
    {
        name_checker::normalize_surname(s)
    }

    /// Extracts the quoted aliases of a name.
    pub fn extract_aliases(&self, s: &str) -> (r: Vec<Vec<char>>)
        ensures
            r.deep_view() == name_checker::aliases_of(s@),
    {
        name_checker::extract_aliases(s)
    }

    /// Splits a name into its surname and its initials.
    pub fn split_name(&self, s: &str) -> (r: (String, String))
        ensures
            r.0@ == name_checker::split_name_spec(s@).0,
            r.1@ == name_checker::split_name_spec(s@).1,
    {
        name_checker::split_name(s)
    }
}

impl SmartNameChecker for NameChecker {
    /// Person-name distance with case folding: every token-set distance is
    /// taken on lower-cased arguments.
    fn compare_names(&self, name_text: &str, name_registry: &str) -> (r: usize) {
        let t = text::to_char_vec(name_text);
        let g = text::to_char_vec(name_registry);
        name_checker::compare_names_chars(&t, &g, true)
    }
}

} // verus!
