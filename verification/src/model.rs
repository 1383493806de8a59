//! Result model of the resolution pipeline: candidates, per-candidate
//! distance diagnostics, surviving match documents, and the per-entity and
//! per-document aggregates.

use vstd::prelude::*;
use crate::db::Record;

verus! {

/// A watchlist record together with its scaled cosine similarity to the
/// query embedding.
pub struct RecordWithRelevance {
    pub record: Record,
    pub similarity: i64,
}

/// Distance diagnostics attached to a match for audit.
#[derive(Debug, Clone)]
pub struct Distances {
    pub not_normal_dis: usize,
    pub normal_dis: usize,
    pub name_dis: Option<usize>,
}

/// One surviving candidate: at most one per watchlist category survives
/// deduplication.
#[derive(Debug, Clone)]
pub struct Doc {
    pub status: String,
    pub name: String,
    pub is_removed: bool,
    pub similarity: i64,
    pub distance: usize,
    pub debug_distances: Option<Distances>,
}

/// One entity's resolution: empty `docs` means the entity is accepted.
#[derive(Debug, Clone)]
pub struct WarningName {
    pub name: String,
    pub normal_name: String,
    pub context: String,
    pub name_type: String,
    pub docs: Vec<Doc>,
}

/// The whole document's resolution, split into confirmed matches and
/// accepted entities, each in extraction order.
#[derive(Debug)]
pub struct WarningNames {
    pub warnings: Vec<WarningName>,
    pub accepted_names: Vec<WarningName>,
}

/// Two diagnostics that carry the same numbers.
pub open spec fn distances_like(a: Distances, b: Distances) -> bool {
    a.not_normal_dis == b.not_normal_dis && a.normal_dis == b.normal_dis && a.name_dis
        == b.name_dis
}

/// Two docs that carry the same data, field for field.
pub open spec fn doc_like(a: Doc, b: Doc) -> bool {
    &&& a.status@ == b.status@
    &&& a.name@ == b.name@
    &&& a.is_removed == b.is_removed
    &&& a.similarity == b.similarity
    &&& a.distance == b.distance
    &&& match (a.debug_distances, b.debug_distances) {
        (Some(da), Some(db)) => distances_like(da, db),
        (None, None) => true,
        _ => false,
    }
}

/// Copies a doc; the copy carries the same data.
pub fn copy_doc(d: &Doc) -> (c: Doc)
    ensures
        doc_like(c, *d),
{
    let debug_distances = match &d.debug_distances {
        Some(dd) => Some(
            Distances {
                not_normal_dis: dd.not_normal_dis,
                normal_dis: dd.normal_dis,
                name_dis: match dd.name_dis {
                    Some(n) => Some(n),
                    None => None,
                },
            },
        ),
        None => None,
    };
    Doc {
        status: d.status.clone(),
        name: d.name.clone(),
        is_removed: d.is_removed,
        similarity: d.similarity,
        distance: d.distance,
        debug_distances,
    }
}

} // verus!
