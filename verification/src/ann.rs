//! Approximate nearest-neighbor retrieval over the watchlist embeddings:
//! a hierarchical navigable small world graph (from the `anda_db_hnsw`
//! crate) behind trusted wrappers, paired with a positional record list.
//! The identifier of a vector in the graph is its position in the list.

use vstd::prelude::*;
use crate::db::{copy_record, record_like, Record};

verus! {

#[verifier::external_type_specification]
#[verifier::external_body]
pub struct ExHnswIndex(anda_db_hnsw::HnswIndex);

/// The set of identifiers inserted into the graph index.
pub uninterp spec fn hnsw_contents(index: anda_db_hnsw::HnswIndex) -> Set<u64>;

/// The vector dimension the graph index was configured with.
pub uninterp spec fn hnsw_dim(index: anda_db_hnsw::HnswIndex) -> usize;

/// Relies on `anda_db_hnsw::HnswIndex::new`: a fresh cosine-metric index
/// with the given dimension (the crate accepts 1 to 16384) and nothing in
/// it.
#[verifier::external_body]
fn hnsw_new(name: &str, dim: usize) -> (r: anda_db_hnsw::HnswIndex)
    requires
        1 <= dim <= 16384,
    ensures
        hnsw_dim(r) == dim,
        hnsw_contents(r) == Set::<u64>::empty(),
{
    let config = anda_db_hnsw::HnswConfig {
        dimension: dim,
        distance_metric: anda_db_hnsw::DistanceMetric::Cosine,
        ..Default::default()
    };
    anda_db_hnsw::HnswIndex::new(name.to_string(), Some(config))
}

/// Relies on `anda_db_hnsw::HnswIndex::insert_f32`: with the configured
/// dimension, finite values and a fresh identifier the insert succeeds and
/// adds exactly that identifier; the fixed-point components are handed over
/// as machine floats.
#[verifier::external_body]
fn hnsw_insert(index: &mut anda_db_hnsw::HnswIndex, id: u64, vector: &Vec<i64>, now: u64)
    requires
        vector@.len() == hnsw_dim(*old(index)),
        !hnsw_contents(*old(index)).contains(id),
    ensures
        hnsw_dim(*final(index)) == hnsw_dim(*old(index)),
        hnsw_contents(*final(index)) == hnsw_contents(*old(index)).insert(id),
{
    index.insert_f32(id, vector.iter().map(|&x| x as _).collect(), now).expect("insert_f32 failed");
}

/// Relies on `anda_db_hnsw::HnswIndex::search_f32`: at most `k` pairwise
/// distinct identifiers, each previously inserted, ordered by ascending
/// approximate distance; which neighbors the graph walk reaches is left
/// open. The distances are dropped.
#[verifier::external_body]
fn hnsw_search(index: &anda_db_hnsw::HnswIndex, query: &Vec<i64>, k: usize) -> (r: Vec<u64>)
    requires
        query@.len() == hnsw_dim(*index),
        k <= 4096,
    ensures
        r@.len() <= k,
        forall|j: int| 0 <= j < r@.len() ==> hnsw_contents(*index).contains(#[trigger] r@[j]),
        forall|i: int, j: int| 0 <= i < j < r@.len() ==> r@[i] != r@[j],
{
    let q: Vec<_> = query.iter().map(|&x| x as _).collect();
    let found = index.search_f32(&q, k).expect("search_f32 failed");
    found.into_iter().map(|(id, _dist)| id).collect()
}

/// Relies on `std::time::SystemTime::now`: milliseconds since the epoch
/// (zero if the clock reads earlier than that); used only as the graph's
/// recency tag, so nothing is promised about the value.
#[verifier::external_body]
pub fn now_ms() -> u64 {
    std::time::SystemTime::now().duration_since(std::time::UNIX_EPOCH).map(
        |d| d.as_millis() as u64,
    ).unwrap_or(0)
}

/// The ANN index over watchlist embeddings with its positional record
/// list: identifier `i` in the graph always refers to record `i` of the
/// list.
pub struct ANNIndex {
    index: anda_db_hnsw::HnswIndex,
    records: Vec<Record>,
    dim: usize,
}

/// `r` carries the data of some non-removed record of `records`.
pub open spec fn from_live_record(records: Seq<Record>, r: Record) -> bool {
    exists|i: int|
        0 <= i < records.len() && record_like(r, #[trigger] records[i]) && !records[i].is_removed
}

/// Positions of the live records a retrieved identifier list refers to:
/// each identifier in order, kept exactly when it is a valid position
/// whose record is not removed.
pub open spec fn live_idx(records: Seq<Record>, ids: Seq<u64>) -> Seq<int>
    decreases ids.len(),
{
    if ids.len() == 0 {
        Seq::empty()
    } else {
        let rest = live_idx(records, ids.drop_last());
        if (ids.last() as int) < records.len() && !records[ids.last() as int].is_removed {
            rest.push(ids.last() as int)
        } else {
            rest
        }
    }
}

proof fn lemma_live_idx_props(records: Seq<Record>, ids: Seq<u64>)
    ensures
        live_idx(records, ids).len() <= ids.len(),
        forall|j: int|
            0 <= j < live_idx(records, ids).len() ==> 0 <= #[trigger] live_idx(records, ids)[j]
                < records.len() && !records[live_idx(records, ids)[j]].is_removed,
    decreases ids.len(),
{
    if ids.len() > 0 {
        lemma_live_idx_props(records, ids.drop_last());
        let rest = live_idx(records, ids.drop_last());
        assert forall|j: int| 0 <= j < live_idx(records, ids).len() implies 0
            <= #[trigger] live_idx(records, ids)[j] < records.len() && !records[live_idx(
            records,
            ids,
        )[j]].is_removed by {
            if j < rest.len() {
                assert(live_idx(records, ids)[j] == rest[j]);
            }
        }
    }
}

/// The tombstone filter applied to a retrieved identifier list: exactly
/// the records at the live positions, in retrieval order, by data.
pub fn live_records(records: &Vec<Record>, ids: &Vec<u64>) -> (r: Vec<Record>)
    ensures
        ({
            let ks = live_idx(records@, ids@);
            &&& r@.len() == ks.len()
            &&& forall|j: int|
                0 <= j < r@.len() ==> {
                    &&& 0 <= #[trigger] ks[j] < records@.len()
                    &&& record_like(r@[j], records@[ks[j]])
                    &&& !records@[ks[j]].is_removed
                    &&& !r@[j].is_removed
                }
        }),
{
    let n = records.len();
    let mut r: Vec<Record> = Vec::new();
    proof {
        assert(ids@.take(0) =~= Seq::<u64>::empty());
    }
    let mut i: usize = 0;
    while i < ids.len()
        invariant
            0 <= i <= ids@.len(),
            n == records@.len(),
            ({
                let ks = live_idx(records@, ids@.take(i as int));
                &&& r@.len() == ks.len()
                &&& forall|j: int|
                    0 <= j < r@.len() ==> {
                        &&& 0 <= #[trigger] ks[j] < records@.len()
                        &&& record_like(r@[j], records@[ks[j]])
                        &&& !records@[ks[j]].is_removed
                        &&& !r@[j].is_removed
                    }
            }),
        decreases ids@.len() - i,
    {
        proof {
            assert(ids@.take(i + 1).drop_last() =~= ids@.take(i as int));
            assert(ids@.take(i + 1).last() == ids@[i as int]);
        }
        let id = ids[i];
        if id < n as u64 {
            let idx = id as usize;
            if !records[idx].is_removed {
                let ghost old_r = r@;
                let ghost ks0 = live_idx(records@, ids@.take(i as int));
                let rec = copy_record(&records[idx]);
                r.push(rec);
                proof {
                    let ks1 = live_idx(records@, ids@.take(i + 1));
                    assert(ks1 =~= ks0.push(idx as int));
                    assert forall|j: int| 0 <= j < r@.len() implies {
                        &&& 0 <= #[trigger] ks1[j] < records@.len()
                        &&& record_like(r@[j], records@[ks1[j]])
                        &&& !records@[ks1[j]].is_removed
                        &&& !r@[j].is_removed
                    } by {
                        if j < r@.len() - 1 {
                            assert(r@[j] == old_r[j]);
                            assert(ks1[j] == ks0[j]);
                        } else {
                            assert(ks1[j] == idx as int);
                            assert(r@[j] == rec);
                        }
                    }
                }
            }
        }
        i = i + 1;
    }
    proof {
        assert(ids@.take(ids@.len() as int) =~= ids@);
    }
    r
}

impl ANNIndex {
    /// The records in insertion order; the graph holds exactly their
    /// positions.
    pub closed spec fn records_view(self) -> Seq<Record> {
        self.records@
    }

    pub closed spec fn spec_dim(self) -> int {
        self.dim as int
    }

    /// Well-formedness: the graph's dimension matches, every stored record
    /// has an embedding of that dimension within the arithmetic bounds, and
    /// the graph contains exactly the list positions.
    pub closed spec fn wf(self) -> bool {
        &&& hnsw_dim(self.index) == self.dim
        &&& 1 <= self.dim <= 16384
        &&& hnsw_contents(self.index) == Set::new(|id: u64| (id as int) < self.records@.len())
        &&& forall|i: int|
            0 <= i < self.records@.len() ==> (#[trigger] self.records@[i]).embedding@.len()
                == self.dim && self.records@[i].valid()
    }

    /// A well-formed index holds only records whose embeddings have its
    /// dimension and sit within the arithmetic bounds.
    pub proof fn lemma_wf_records_valid(self)
        requires
            self.wf(),
        ensures
            forall|i: int|
                0 <= i < self.records_view().len() ==> (
                #[trigger] self.records_view()[i]).valid() && self.records_view()[i].embedding@.len()
                    == self.spec_dim(),
    {
    }

    /// A fresh, empty index for embeddings of dimension `dim`.
    pub fn new(name: &str, dim: usize) -> (r: Self)
        requires
            1 <= dim <= 16384,
        ensures
            r.wf(),
            r.spec_dim() == dim,
            r.records_view() == Seq::<Record>::empty(),
    {
        let index = hnsw_new(name, dim);
        let records: Vec<Record> = Vec::new();
        proof {
            assert(Set::new(|id: u64| (id as int) < records@.len()) =~= Set::<u64>::empty());
        }
        ANNIndex { index, records, dim }
    }

    /// The number of records held.
    pub fn len(&self) -> (r: usize)
        ensures
            r == self.records_view().len(),
    {
        self.records.len()
    }

    /// Appends a record: it gets the next position as its identifier and
    /// its embedding goes into the graph.
    pub fn add(&mut self, rec: Record)
        requires
            old(self).wf(),
            rec.embedding@.len() == old(self).spec_dim(),
            rec.valid(),
        ensures
            final(self).wf(),
            final(self).spec_dim() == old(self).spec_dim(),
            final(self).records_view() == old(self).records_view().push(rec),
    {
        let id = self.records.len() as u64;
        let now = now_ms();
        hnsw_insert(&mut self.index, id, &rec.embedding, now);
        self.records.push(rec);
        proof {
            assert(hnsw_contents(self.index) =~= Set::new(
                |id2: u64| (id2 as int) < self.records@.len(),
            ));
        }
    }

    /// Top-`k` approximate retrieval: every returned record is one of the
    /// stored records, never a removed one; removed records are filtered
    /// after the graph walk. Which of the stored records come back is up to
    /// the graph; an empty list always yields an empty result.
    pub fn search(&self, query: &Vec<i64>, k: usize) -> (r: Vec<Record>)
        requires
            self.wf(),
            query@.len() == self.spec_dim(),
            k <= 4096,
        ensures
            r@.len() <= k,
            forall|j: int|
                0 <= j < r@.len() ==> from_live_record(self.records_view(), #[trigger] r@[j]),
            forall|j: int| 0 <= j < r@.len() ==> !(#[trigger] r@[j]).is_removed,
            self.records_view().len() == 0 ==> r@.len() == 0,
    {
        let ids = hnsw_search(&self.index, query, k);
        let out = live_records(&self.records, &ids);
        proof {
            let ks = live_idx(self.records@, ids@);
            lemma_live_idx_props(self.records@, ids@);
            assert(out@.len() <= ids@.len());
            assert forall|j: int| 0 <= j < out@.len() implies from_live_record(
                self.records_view(),
                #[trigger] out@[j],
            ) by {
                assert(0 <= ks[j] < self.records_view().len() && record_like(
                    out@[j],
                    self.records_view()[ks[j]],
                ) && !self.records_view()[ks[j]].is_removed);
            }
            if self.records_view().len() == 0 && out@.len() > 0 {
                assert(0 <= ks[0] < self.records_view().len());
            }
        }
        out
    }
}

} // verus!
