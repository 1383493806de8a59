//! Candidate ranking: the token-set distance taken on the arguments as
//! given, and the similarity filter-sort-truncate step shared by the linear
//! scan and the index-backed retrieval.

use vstd::prelude::*;
use crate::db::{record_like, copy_record, Record};
use crate::funcs;
use crate::model::RecordWithRelevance;
use crate::text;

verus! {

/// The token-set distance on the arguments as given, without case folding.
pub fn unordered_levenshtein(s1: &str, s2: &str) -> (r: usize)
    ensures
        r == funcs::sat_usize(funcs::token_set_distance(s1@, s2@)),
{
    let c1 = text::to_char_vec(s1);
    let c2 = text::to_char_vec(s2);
    funcs::token_set_distance_chars(&c1, &c2)
}

/// Similarity of the query to the record at index `i`.
pub open spec fn sim_at(records: Seq<Record>, q: Seq<i64>, i: int) -> int {
    funcs::cosine_sim(q, records[i].embedding@)
}

/// Indices of the records at least as similar as the threshold, in order.
pub open spec fn filter_ge_idx(records: Seq<Record>, q: Seq<i64>, t: int) -> Seq<usize>
    decreases records.len(),
{
    if records.len() == 0 {
        Seq::empty()
    } else {
        let rest = filter_ge_idx(records.drop_last(), q, t);
        if sim_at(records, q, records.len() - 1) >= t {
            rest.push((records.len() - 1) as usize)
        } else {
            rest
        }
    }
}

/// Inserts an index into a similarity-descending run, after every index at
/// least as similar: a stable descending insertion.
pub open spec fn insert_desc_idx(records: Seq<Record>, q: Seq<i64>, x: usize, s: Seq<usize>) -> Seq<
    usize,
>
    decreases s.len(),
{
    if s.len() == 0 {
        seq![x]
    } else if sim_at(records, q, s[0] as int) >= sim_at(records, q, x as int) {
        seq![s[0]] + insert_desc_idx(records, q, x, s.drop_first())
    } else {
        seq![x] + s
    }
}

/// Stable sort of indices by descending similarity.
pub open spec fn sort_desc_idx(records: Seq<Record>, q: Seq<i64>, s: Seq<usize>) -> Seq<usize>
    decreases s.len(),
{
    if s.len() == 0 {
        Seq::empty()
    } else {
        insert_desc_idx(records, q, s.last(), sort_desc_idx(records, q, s.drop_last()))
    }
}

pub open spec fn take_at_most<T>(s: Seq<T>, n: int) -> Seq<T> {
    if n >= s.len() {
        s
    } else {
        s.take(n)
    }
}

/// The indices of the retained candidates: filter by threshold, sort by
/// descending similarity (stable), keep at most `number`.
pub open spec fn ranked_idx(records: Seq<Record>, q: Seq<i64>, t: int, number: int) -> Seq<usize> {
    take_at_most(sort_desc_idx(records, q, filter_ge_idx(records, q, t)), number)
}

proof fn lemma_insert_desc_at(records: Seq<Record>, q: Seq<i64>, x: usize, s: Seq<usize>, p: int)
    requires
        0 <= p <= s.len(),
        forall|j: int| 0 <= j < p ==> sim_at(records, q, #[trigger] s[j] as int) >= sim_at(
            records,
            q,
            x as int,
        ),
        p == s.len() || sim_at(records, q, s[p] as int) < sim_at(records, q, x as int),
    ensures
        insert_desc_idx(records, q, x, s) == s.take(p) + seq![x] + s.skip(p),
    decreases s.len(),
{
    if s.len() == 0 {
        assert(s.take(0) + seq![x] + s.skip(0) =~= seq![x]);
    } else if p == 0 {
        assert(s.take(0) + seq![x] + s.skip(0) =~= seq![x] + s);
    } else {
        assert(sim_at(records, q, s[0] as int) >= sim_at(records, q, x as int));
        assert forall|j: int| 0 <= j < p - 1 implies sim_at(
            records,
            q,
            #[trigger] s.drop_first()[j] as int,
        ) >= sim_at(records, q, x as int) by {
            assert(s.drop_first()[j] == s[j + 1]);
        }
        lemma_insert_desc_at(records, q, x, s.drop_first(), p - 1);
        assert(seq![s[0]] + (s.drop_first().take(p - 1) + seq![x] + s.drop_first().skip(p - 1))
            =~= s.take(p) + seq![x] + s.skip(p));
    }
}

proof fn lemma_insert_desc_bounds(records: Seq<Record>, q: Seq<i64>, x: usize, s: Seq<usize>, m: int)
    requires
        x < m,
        forall|j: int| 0 <= j < s.len() ==> #[trigger] s[j] < m,
    ensures
        insert_desc_idx(records, q, x, s).len() == s.len() + 1,
        forall|j: int|
            0 <= j < s.len() + 1 ==> #[trigger] insert_desc_idx(records, q, x, s)[j] < m,
    decreases s.len(),
{
    if s.len() == 0 {
    } else if sim_at(records, q, s[0] as int) >= sim_at(records, q, x as int) {
        assert forall|j: int| 0 <= j < s.drop_first().len() implies #[trigger] s.drop_first()[j]
            < m by {
            assert(s.drop_first()[j] == s[j + 1]);
        }
        lemma_insert_desc_bounds(records, q, x, s.drop_first(), m);
    } else {
    }
}

/// Keeps the records at least `treshold`-similar to the query, ordered by
/// descending similarity (ties in record order), at most `number` of them:
/// exactly the records that `ranked_idx` selects.
pub fn get_must_relevant(name: &[i64], inoagents: &[Record], number: usize, treshold: i64) -> (r:
    Vec<RecordWithRelevance>)
    requires
        funcs::valid_embedding(name@),
        forall|i: int| 0 <= i < inoagents@.len() ==> (#[trigger] inoagents@[i]).valid(),
    ensures
        ({
            let order = ranked_idx(inoagents@, name@, treshold as int, number as int);
            &&& r@.len() == order.len()
            &&& forall|j: int|
                0 <= j < r@.len() ==> {
                    &&& 0 <= #[trigger] order[j] < inoagents@.len()
                    &&& record_like(r@[j].record, inoagents@[order[j] as int])
                    &&& r@[j].similarity == sim_at(inoagents@, name@, order[j] as int)
                }
        }),
        forall|j: int| 0 <= j < r@.len() ==> (#[trigger] r@[j]).similarity >= treshold,
        forall|a: int, b: int|
            0 <= a < b < r@.len() ==> r@[a].similarity >= r@[b].similarity,
{
    let ghost recs = inoagents@;
    let ghost qv = name@;
    // similarities
    let mut sims: Vec<i64> = Vec::new();
    let mut i: usize = 0;
    while i < inoagents.len()
        invariant
            0 <= i <= recs.len(),
            recs == inoagents@,
            qv == name@,
            funcs::valid_embedding(qv),
            forall|j: int| 0 <= j < recs.len() ==> (#[trigger] recs[j]).valid(),
            sims@.len() == i,
            forall|j: int| 0 <= j < i ==> #[trigger] sims@[j] == sim_at(recs, qv, j),
        decreases inoagents@.len() - i,
    {
        let s = funcs::cosine_similarity(name, inoagents[i].embedding.as_slice());
        sims.push(s);
        i = i + 1;
    }
    // filter
    let mut kept: Vec<usize> = Vec::new();
    let mut i2: usize = 0;
    while i2 < inoagents.len()
        invariant
            0 <= i2 <= recs.len(),
            recs == inoagents@,
            qv == name@,
            sims@.len() == recs.len(),
            forall|j: int| 0 <= j < recs.len() ==> #[trigger] sims@[j] == sim_at(recs, qv, j),
            kept@ == filter_ge_idx(recs.take(i2 as int), qv, treshold as int),
            forall|j: int| 0 <= j < kept@.len() ==> #[trigger] kept@[j] < i2,
            forall|j: int|
                0 <= j < kept@.len() ==> sim_at(recs, qv, #[trigger] kept@[j] as int) >= treshold,
        decreases recs.len() - i2,
    {
        proof {
            assert(recs.take(i2 + 1).drop_last() =~= recs.take(i2 as int));
            assert(forall|j: int|
                0 <= j <= i2 ==> sim_at(recs.take(i2 + 1), qv, j) == sim_at(recs, qv, j));
        }
        if sims[i2] >= treshold {
            kept.push(i2);
        }
        i2 = i2 + 1;
    }
    proof {
        assert(recs.take(recs.len() as int) =~= recs);
    }
    // stable descending insertion sort on indices
    let mut sorted: Vec<usize> = Vec::new();
    let mut i3: usize = 0;
    while i3 < kept.len()
        invariant
            0 <= i3 <= kept@.len(),
            recs == inoagents@,
            qv == name@,
            sims@.len() == recs.len(),
            forall|j: int| 0 <= j < recs.len() ==> #[trigger] sims@[j] == sim_at(recs, qv, j),
            forall|j: int| 0 <= j < kept@.len() ==> #[trigger] kept@[j] < recs.len(),
            forall|j: int|
                0 <= j < kept@.len() ==> sim_at(recs, qv, #[trigger] kept@[j] as int) >= treshold,
            sorted@ == sort_desc_idx(recs, qv, kept@.take(i3 as int)),
            forall|j: int| 0 <= j < sorted@.len() ==> #[trigger] sorted@[j] < recs.len(),
            forall|j: int|
                0 <= j < sorted@.len() ==> sim_at(recs, qv, #[trigger] sorted@[j] as int)
                    >= treshold,
            forall|a: int, b: int|
                0 <= a < b < sorted@.len() ==> sim_at(recs, qv, sorted@[a] as int) >= sim_at(
                    recs,
                    qv,
                    sorted@[b] as int,
                ),
        decreases kept@.len() - i3,
    {
        let x = kept[i3];
        let mut p: usize = 0;
        while p < sorted.len() && sims[sorted[p]] >= sims[x]
            invariant
                0 <= p <= sorted@.len(),
                recs == inoagents@,
                qv == name@,
                x < recs.len(),
                sims@.len() == recs.len(),
                forall|j: int| 0 <= j < recs.len() ==> #[trigger] sims@[j] == sim_at(recs, qv, j),
                forall|j: int| 0 <= j < sorted@.len() ==> #[trigger] sorted@[j] < recs.len(),
                forall|j: int|
                    0 <= j < p ==> sim_at(recs, qv, #[trigger] sorted@[j] as int) >= sim_at(
                        recs,
                        qv,
                        x as int,
                    ),
            decreases sorted@.len() - p,
        {
            p = p + 1;
        }
        proof {
            assert(kept@.take(i3 + 1).drop_last() =~= kept@.take(i3 as int));
            assert(kept@.take(i3 + 1).last() == kept@[i3 as int]);
            lemma_insert_desc_at(recs, qv, x, sorted@, p as int);
            lemma_insert_desc_bounds(recs, qv, x, sorted@, recs.len() as int);
        }
        let ghost old_sorted = sorted@;
        sorted.insert(p, x);
        proof {
            assert(sorted@ =~= old_sorted.take(p as int) + seq![x] + old_sorted.skip(p as int));
            assert forall|a: int| 0 <= a < sorted@.len() implies sim_at(
                recs,
                qv,
                #[trigger] sorted@[a] as int,
            ) >= treshold by {
                if a < p {
                    assert(sorted@[a] == old_sorted[a]);
                } else if a == p {
                    assert(sorted@[a] == x);
                } else {
                    assert(sorted@[a] == old_sorted[a - 1]);
                }
            }
            assert forall|a: int, b: int| 0 <= a < b < sorted@.len() implies sim_at(
                recs,
                qv,
                sorted@[a] as int,
            ) >= sim_at(recs, qv, sorted@[b] as int) by {
                let sa: int = if a < p {
                    old_sorted[a] as int
                } else if a == p {
                    x as int
                } else {
                    old_sorted[a - 1] as int
                };
                let sb: int = if b < p {
                    old_sorted[b] as int
                } else if b == p {
                    x as int
                } else {
                    old_sorted[b - 1] as int
                };
                assert(sorted@[a] as int == sa);
                assert(sorted@[b] as int == sb);
                if p < old_sorted.len() {
                    assert(sim_at(recs, qv, x as int) > sim_at(
                        recs,
                        qv,
                        old_sorted[p as int] as int,
                    ));
                }
            }
        }
        i3 = i3 + 1;
    }
    proof {
        assert(kept@.take(kept@.len() as int) =~= kept@);
    }
    let ghost pre_trunc = sorted@;
    sorted.truncate(number);
    proof {
        if number < sort_desc_idx(recs, qv, kept@).len() {
            assert(sorted@ =~= take_at_most(sort_desc_idx(recs, qv, kept@), number as int));
        }
        assert forall|j: int| 0 <= j < sorted@.len() implies #[trigger] sorted@[j]
            == pre_trunc[j] by {}
    }
    // materialize
    let ghost order = ranked_idx(recs, qv, treshold as int, number as int);
    let mut r: Vec<RecordWithRelevance> = Vec::new();
    let mut i4: usize = 0;
    while i4 < sorted.len()
        invariant
            0 <= i4 <= sorted@.len(),
            recs == inoagents@,
            qv == name@,
            sims@.len() == recs.len(),
            forall|j: int| 0 <= j < recs.len() ==> #[trigger] sims@[j] == sim_at(recs, qv, j),
            forall|j: int| 0 <= j < sorted@.len() ==> #[trigger] sorted@[j] < recs.len(),
            forall|j: int|
                0 <= j < sorted@.len() ==> sim_at(recs, qv, #[trigger] sorted@[j] as int)
                    >= treshold,
            forall|a: int, b: int|
                0 <= a < b < sorted@.len() ==> sim_at(recs, qv, sorted@[a] as int) >= sim_at(
                    recs,
                    qv,
                    sorted@[b] as int,
                ),
            sorted@ == order,
            r@.len() == i4,
            forall|j: int|
                0 <= j < i4 ==> {
                    &&& record_like((#[trigger] r@[j]).record, recs[order[j] as int])
                    &&& r@[j].similarity == sim_at(recs, qv, order[j] as int)
                },
        decreases sorted@.len() - i4,
    {
        let idx = sorted[i4];
        let rec = copy_record(&inoagents[idx]);
        r.push(RecordWithRelevance { record: rec, similarity: sims[idx] });
        i4 = i4 + 1;
    }
    r
}

} // verus!
