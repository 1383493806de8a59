//! The watchlist record as the store hands it over. Embeddings are
//! fixed-point integer vectors; the store's adapter converts provider floats
//! by scaling before anything here sees them.

use vstd::prelude::*;

verus! {

/// One watchlist row: a name, its classification label, its embedding, and
/// the logical-deletion flag. Removed records stay searchable but are
/// filtered from every search result.
#[derive(Debug, Clone)]
pub struct Record {
    pub name: String,
    pub record_type: String,
    pub embedding: Vec<i64>,
    pub is_removed: bool,
}

impl Record {
    /// The arithmetic bounds every stored embedding must satisfy.
    pub open spec fn valid(self) -> bool {
        crate::funcs::valid_embedding(self.embedding@)
    }
}

/// Two records that carry the same data, field for field.
pub open spec fn record_like(a: Record, b: Record) -> bool {
    a.name@ == b.name@ && a.record_type@ == b.record_type@ && a.embedding@ == b.embedding@
        && a.is_removed == b.is_removed
}

/// Copies a record; the copy carries the same data.
pub fn copy_record(r: &Record) -> (c: Record)
    ensures
        record_like(c, *r),
{
    let embedding = r.embedding.clone();
    proof {
        assert(embedding@ =~= r.embedding@);
    }
    Record {
        name: r.name.clone(),
        record_type: r.record_type.clone(),
        embedding,
        is_removed: r.is_removed,
    }
}

} // verus!
