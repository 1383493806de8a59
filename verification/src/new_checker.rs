//! The resolution orchestrator: per-entity classification against the
//! watchlist, per-category deduplication, the substring fallback for
//! non-Cyrillic names, aggregation of per-entity outcomes, and the
//! watchlist mutations. External calls (entity extraction, embeddings) are
//! driven outside the library; the decisions between them live here.

use vstd::prelude::*;
use crate::ann::{from_live_record, ANNIndex};
use crate::api::ErrorS;
use crate::checker_utils;
use crate::db::{copy_record, record_like, Record};
use crate::funcs;
use crate::interface::SmartNameChecker;
use crate::model::{copy_doc, doc_like, Distances, Doc, RecordWithRelevance, WarningName,
    WarningNames};
use crate::name_checker;
use crate::ner::Entity;
use crate::text;

verus! {

/// Fused distances at or below this bound count as a match.
pub const MAX_DIS: usize = 7;

/// Scaled cosine similarities at or above this bound (0.61) count as a
/// match.
pub const MAX_TRESHOLD: i64 = 610_000;

/// The embedding dimension the watchlist is built for.
pub const EMB_DIM: usize = 256;

/// How many approximate neighbors one classification retrieves.
pub const TOP_K: usize = 5;

// ---------------------------------------------------------------------
// per-candidate scoring
// ---------------------------------------------------------------------

/// Token-set distance of the normalized entity name to the record name,
/// both lower-cased.
pub open spec fn d_norm(e: Entity, rname: Seq<char>) -> int {
    funcs::token_set_distance(text::lower_seq(e.norm_name@), text::lower_seq(rname))
}

/// Token-set distance of the raw entity name to the record name, both
/// lower-cased.
pub open spec fn d_raw(e: Entity, rname: Seq<char>) -> int {
    funcs::token_set_distance(text::lower_seq(e.name@), text::lower_seq(rname))
}

/// The person-name distance folds into the fused distance only for PERSON
/// entities whose raw name carries a period (a name given as initials).
pub open spec fn person_folds(e: Entity) -> bool {
    e.entity_type@ == "PER"@ && e.name@.contains('.')
}

/// The person-name distance signal: lower-cased entity name against the
/// ASCII-lower-cased record name.
pub open spec fn d_person(e: Entity, rname: Seq<char>) -> int {
    name_checker::person_distance(text::lower_seq(e.name@), text::ascii_lower_seq(rname), true)
}

/// The fused distance before saturation: the least of the normalized and
/// raw token-set distances, each first folded with the person-name
/// distance when that signal applies.
pub open spec fn fused_raw(e: Entity, rname: Seq<char>) -> int {
    if person_folds(e) {
        name_checker::min_int(
            name_checker::min_int(d_norm(e, rname), d_person(e, rname)),
            name_checker::min_int(d_raw(e, rname), d_person(e, rname)),
        )
    } else {
        name_checker::min_int(d_norm(e, rname), d_raw(e, rname))
    }
}

/// The audit diagnostics carry the pre-fold distances, and the person
/// distance exactly when it folded.
pub open spec fn distances_match(d: Distances, e: Entity, rname: Seq<char>) -> bool {
    &&& d.not_normal_dis == funcs::sat_usize(d_raw(e, rname))
    &&& d.normal_dis == funcs::sat_usize(d_norm(e, rname))
    &&& if person_folds(e) {
        d.name_dis matches Some(nd) && nd == funcs::sat_usize(d_person(e, rname))
    } else {
        d.name_dis is None
    }
}

/// A match document derived from record data and a similarity.
pub open spec fn doc_matches(d: Doc, e: Entity, rec: Record, sim: i64) -> bool {
    &&& d.status@ == rec.record_type@
    &&& d.name@ == rec.name@
    &&& d.is_removed == rec.is_removed
    &&& d.similarity == sim
    &&& d.distance == funcs::sat_usize(fused_raw(e, rec.name@))
    &&& d.debug_distances matches Some(dd) && distances_match(dd, e, rec.name@)
}

// ---------------------------------------------------------------------
// per-category deduplication
// ---------------------------------------------------------------------

/// The statuses of the docs, in order.
pub open spec fn status_seq(docs: Seq<Doc>) -> Seq<Seq<char>>
    decreases docs.len(),
{
    if docs.len() == 0 {
        Seq::empty()
    } else {
        status_seq(docs.drop_last()).push(docs.last().status@)
    }
}

pub proof fn lemma_status_seq_props(docs: Seq<Doc>)
    ensures
        status_seq(docs).len() == docs.len(),
        forall|m: int| 0 <= m < docs.len() ==> #[trigger] status_seq(docs)[m] == docs[m].status@,
    decreases docs.len(),
{
    if docs.len() > 0 {
        lemma_status_seq_props(docs.drop_last());
    }
}

/// The doc at `i` is the survivor for status `st`: it has that status,
/// no doc of that status has a smaller distance, and no earlier doc of
/// that status ties it.
pub open spec fn is_best_idx(docs: Seq<Doc>, st: Seq<char>, i: int) -> bool {
    &&& 0 <= i < docs.len()
    &&& docs[i].status@ == st
    &&& forall|j: int|
        0 <= j < docs.len() && (#[trigger] docs[j]).status@ == st ==> docs[i].distance
            <= docs[j].distance
    &&& forall|j: int|
        0 <= j < i && (#[trigger] docs[j]).status@ == st ==> docs[j].distance > docs[i].distance
}

///`d` carries the data of the survivor for status `st`.
pub open spec fn chosen_for(docs: Seq<Doc>, st: Seq<char>, d: Doc) -> bool {
    exists|i: int| #[trigger] is_best_idx(docs, st, i) && doc_like(d, docs[i])
}

/// Deduplicates match documents by status: one doc per distinct status, in
/// first-appearance order, keeping the lowest-distance doc of each status
/// (the earliest on a tie).
pub fn process_docs(docs: Vec<Doc>) -> (r: Vec<Doc>)
    ensures
        ({
            let sts = text::dedup_tokens(status_seq(docs@));
            &&& r@.len() == sts.len()
            &&& forall|k: int|
                0 <= k < r@.len() ==> (#[trigger] r@[k]).status@ == sts[k] && chosen_for(
                    docs@,
                    sts[k],
                    r@[k],
                )
            &&& forall|a: int, b: int| 0 <= a < b < r@.len() ==> r@[a].status@ != r@[b].status@
        }),
{
    let ghost dv = docs@;
    proof {
        lemma_status_seq_props(dv);
    }
    // the distinct statuses, in first-appearance order
    let mut sts: Vec<Vec<char>> = Vec::new();
    let mut i: usize = 0;
    while i < docs.len()
        invariant
            0 <= i <= dv.len(),
            dv == docs@,
            status_seq(dv).len() == dv.len(),
            forall|m: int| 0 <= m < dv.len() ==> #[trigger] status_seq(dv)[m] == dv[m].status@,
            sts.deep_view() == text::dedup_tokens(status_seq(dv.take(i as int))),
        decreases dv.len() - i,
    {
        let ghost pre = status_seq(dv.take(i as int));
        proof {
            lemma_status_seq_props(dv.take(i as int));
            lemma_status_seq_props(dv.take(i + 1));
            assert(dv.take(i + 1).drop_last() =~= dv.take(i as int));
            assert(status_seq(dv.take(i + 1)).drop_last() =~= pre);
            assert(status_seq(dv.take(i + 1)).last() == dv[i as int].status@);
            text::lemma_dedup_tokens_elems(pre);
        }
        let sc = text::to_char_vec(docs[i].status.as_str());
        let present = text::tokens_member(&sts, &sc);
        proof {
            assert(present == pre.contains(dv[i as int].status@)) by {
                if sts.deep_view().contains(dv[i as int].status@) {
                    assert(pre.contains(dv[i as int].status@));
                }
                if pre.contains(dv[i as int].status@) {
                    assert(sts.deep_view().contains(dv[i as int].status@));
                }
            }
        }
        if !present {
            let ghost prev = sts.deep_view();
            sts.push(sc);
            proof {
                assert(sts.deep_view() =~~= prev.push(dv[i as int].status@));
            }
        }
        i = i + 1;
    }
    proof {
        assert(dv.take(dv.len() as int) =~= dv);
    }
    let ghost stsv = sts.deep_view();
    proof {
        text::lemma_dedup_tokens_elems(status_seq(dv));
    }
    // per status, the first doc with the least distance
    let mut r: Vec<Doc> = Vec::new();
    let mut k: usize = 0;
    while k < sts.len()
        invariant
            0 <= k <= stsv.len(),
            dv == docs@,
            stsv == sts.deep_view(),
            stsv.len() == sts@.len(),
            status_seq(dv).len() == dv.len(),
            forall|m: int| 0 <= m < dv.len() ==> #[trigger] status_seq(dv)[m] == dv[m].status@,
            forall|x: Seq<char>| #[trigger] stsv.contains(x) ==> status_seq(dv).contains(x),
            r@.len() == k,
            forall|m: int|
                0 <= m < k ==> (#[trigger] r@[m]).status@ == stsv[m] && chosen_for(
                    dv,
                    stsv[m],
                    r@[m],
                ),
        decreases stsv.len() - k,
    {
        proof {
            assert(stsv[k as int] =~= sts@[k as int]@);
        }
        let st = &sts[k];
        let ghost stv = stsv[k as int];
        let mut best: usize = 0;
        let mut found = false;
        let mut j: usize = 0;
        while j < docs.len()
            invariant
                0 <= j <= dv.len(),
                dv == docs@,
                stv == st@,
                found ==> {
                    &&& best < j <= dv.len()
                    &&& dv[best as int].status@ == stv
                    &&& forall|m: int|
                        0 <= m < j && (#[trigger] dv[m]).status@ == stv ==> dv[best as int].distance
                            <= dv[m].distance
                    &&& forall|m: int|
                        0 <= m < best && (#[trigger] dv[m]).status@ == stv ==> dv[m].distance
                            > dv[best as int].distance
                },
                !found ==> forall|m: int| 0 <= m < j ==> (#[trigger] dv[m]).status@ != stv,
            decreases dv.len() - j,
        {
            let sc = text::to_char_vec(docs[j].status.as_str());
            if text::chars_eq(&sc, st) {
                if !found || docs[j].distance < docs[best].distance {
                    best = j;
                    found = true;
                }
            }
            j = j + 1;
        }
        if found {
            proof {
                assert(is_best_idx(dv, stv, best as int));
            }
            let d = copy_doc(&docs[best]);
            r.push(d);
            proof {
                assert(chosen_for(dv, stv, r@[k as int]));
            }
        } else {
            proof {
                // the status came from some doc, so the scan cannot miss
                assert(stsv.contains(stv));
                assert(status_seq(dv).contains(stv));
                let m = choose|m: int|
                    0 <= m < status_seq(dv).len() && status_seq(dv)[m] == stv;
                assert(dv[m].status@ == stv);
                assert(false);
            }
        }
        k = k + 1;
    }
    proof {
        assert forall|a: int, b: int| 0 <= a < b < r@.len() implies r@[a].status@
            != r@[b].status@ by {
            assert(r@[a].status@ == stsv[a] && r@[b].status@ == stsv[b]);
        }
    }
    r
}

// ---------------------------------------------------------------------
// entity-level outcomes
// ---------------------------------------------------------------------

/// The resolution result carries the entity's own fields unchanged.
pub open spec fn entity_fields_match(w: WarningName, e: Entity) -> bool {
    w.name == e.name && w.normal_name == e.norm_name && w.context == e.context && w.name_type
        == e.entity_type
}

/// An accepted entity with no supporting documents.
pub open spec fn accepted_empty(w: WarningName, e: Entity) -> bool {
    entity_fields_match(w, e) && w.docs@.len() == 0
}

/// `c` is a live watchlist record (by data) with its exact similarity, at
/// or above the threshold.
pub open spec fn candidate_ok(records: Seq<Record>, q: Seq<i64>, t: int, c: RecordWithRelevance) -> bool {
    exists|i: int|
        {
            &&& 0 <= i < records.len()
            &&& !(#[trigger] records[i]).is_removed
            &&& record_like(c.record, records[i])
            &&& c.similarity == funcs::cosine_sim(q, records[i].embedding@)
            &&& c.similarity >= t
        }
}

/// `d` is derived from a live watchlist record that passed the similarity
/// threshold, with the exact fused distance, at or under the bound.
pub open spec fn doc_ok(
    records: Seq<Record>,
    q: Seq<i64>,
    e: Entity,
    t: int,
    maxd: int,
    d: Doc,
) -> bool {
    exists|i: int|
        {
            &&& 0 <= i < records.len()
            &&& !(#[trigger] records[i]).is_removed
            &&& doc_matches(d, e, records[i], d.similarity)
            &&& d.similarity == funcs::cosine_sim(q, records[i].embedding@)
            &&& d.similarity >= t
            &&& d.distance <= maxd
        }
}

/// A confirmed-match outcome: the entity's fields, and at least one doc,
/// each derived exactly from a live record within both bounds, at most one
/// per category.
pub open spec fn warning_ok(
    records: Seq<Record>,
    q: Seq<i64>,
    e: Entity,
    t: int,
    maxd: int,
    w: WarningName,
) -> bool {
    &&& entity_fields_match(w, e)
    &&& w.docs@.len() >= 1
    &&& forall|j: int| 0 <= j < w.docs@.len() ==> doc_ok(records, q, e, t, maxd, #[trigger] w.docs@[j])
    &&& forall|a: int, b: int| 0 <= a < b < w.docs@.len() ==> w.docs@[a].status@ != w.docs@[b].status@
}

/// Indices of the candidates whose fused distance stays within the bound,
/// in order.
pub open spec fn keep_idx(e: Entity, cands: Seq<RecordWithRelevance>, maxd: int) -> Seq<int>
    decreases cands.len(),
{
    if cands.len() == 0 {
        Seq::empty()
    } else {
        let rest = keep_idx(e, cands.drop_last(), maxd);
        if funcs::sat_usize(fused_raw(e, cands.last().record.name@)) <= maxd {
            rest.push(cands.len() - 1)
        } else {
            rest
        }
    }
}

/// Scores every candidate against the entity and keeps exactly those whose
/// fused distance stays within `max_distance`, in candidate order, as
/// audit-ready match documents: one document per kept candidate, derived
/// from that candidate's record data and similarity.
pub fn build_docs<S: SmartNameChecker>(
    nc: &S,
    entity: &Entity,
    cands: &Vec<RecordWithRelevance>,
    max_distance: usize,
) -> (r: Vec<Doc>)
    ensures
        ({
            let ks = keep_idx(*entity, cands@, max_distance as int);
            &&& r@.len() == ks.len()
            &&& forall|j: int|
                0 <= j < r@.len() ==> {
                    &&& 0 <= #[trigger] ks[j] < cands@.len()
                    &&& doc_matches(
                        r@[j],
                        *entity,
                        cands@[ks[j]].record,
                        cands@[ks[j]].similarity,
                    )
                    &&& r@[j].distance <= max_distance
                }
        }),
{
    let ghost cv = cands@;
    let mut docs: Vec<Doc> = Vec::new();
    let mut i: usize = 0;
    while i < cands.len()
        invariant
            0 <= i <= cv.len(),
            cv == cands@,
            ({
                let ks = keep_idx(*entity, cv.take(i as int), max_distance as int);
                &&& docs@.len() == ks.len()
                &&& forall|j: int|
                    0 <= j < docs@.len() ==> {
                        &&& 0 <= #[trigger] ks[j] < cv.len()
                        &&& doc_matches(
                            docs@[j],
                            *entity,
                            cv[ks[j]].record,
                            cv[ks[j]].similarity,
                        )
                        &&& docs@[j].distance <= max_distance
                    }
            }),
        decreases cv.len() - i,
    {
        proof {
            assert(cv.take(i + 1).drop_last() =~= cv.take(i as int));
            assert(cv.take(i + 1).last() == cv[i as int]);
        }
        let ag = &cands[i];
        let rname = text::to_char_vec(ag.record.name.as_str());
        let lr = text::lower_vec(&rname);
        let ln = text::lower_vec(&text::to_char_vec(entity.norm_name.as_str()));
        let lnr = text::lower_vec(&text::to_char_vec(entity.name.as_str()));
        let dis0 = funcs::token_set_distance_chars(&ln, &lr);
        let dis2_0 = funcs::token_set_distance_chars(&lnr, &lr);
        let mut dis = dis0;
        let mut dis2 = dis2_0;
        let mut name_dis_field: Option<usize> = None;
        let etype = text::to_char_vec(entity.entity_type.as_str());
        let per_lit = text::to_char_vec("PER");
        let name_chars = text::to_char_vec(entity.name.as_str());
        let is_per = text::chars_eq(&etype, &per_lit);
        let has_dot = text::contains_char(&name_chars, '.');
        if is_per && has_dot {
            let low_name = text::string_from_chars(&lnr);
            let alow_rec = text::string_from_chars(&text::ascii_lower_vec(&rname));
            let name_dis = nc.compare_names(low_name.as_str(), alow_rec.as_str());
            name_dis_field = Some(name_dis);
            if name_dis < dis {
                dis = name_dis;
            }
            if name_dis < dis2 {
                dis2 = name_dis;
            }
        }
        if dis2 < dis {
            dis = dis2;
        }
        proof {
            assert(dis == funcs::sat_usize(fused_raw(*entity, ag.record.name@)));
        }
        if dis <= max_distance {
            let distances = Distances {
                not_normal_dis: dis2_0,
                normal_dis: dis0,
                name_dis: name_dis_field,
            };
            let doc = Doc {
                name: ag.record.name.clone(),
                is_removed: ag.record.is_removed,
                status: ag.record.record_type.clone(),
                similarity: ag.similarity,
                distance: dis,
                debug_distances: Some(distances),
            };
            let ghost old_docs = docs@;
            docs.push(doc);
            proof {
                let ks1 = keep_idx(*entity, cv.take(i + 1), max_distance as int);
                let ks0 = keep_idx(*entity, cv.take(i as int), max_distance as int);
                assert(ks1 =~= ks0.push(i as int));
                assert(doc_matches(doc, *entity, cv[i as int].record, cv[i as int].similarity));
                assert forall|j: int| 0 <= j < docs@.len() implies {
                    &&& 0 <= #[trigger] ks1[j] < cv.len()
                    &&& doc_matches(docs@[j], *entity, cv[ks1[j]].record, cv[ks1[j]].similarity)
                    &&& docs@[j].distance <= max_distance
                } by {
                    if j < docs@.len() - 1 {
                        assert(docs@[j] == old_docs[j]);
                        assert(ks1[j] == ks0[j]);
                    } else {
                        assert(ks1[j] == i as int);
                        assert(docs@[j] == doc);
                    }
                }
            }
        } else {
            proof {
                assert(keep_idx(*entity, cv.take(i + 1), max_distance as int) =~= keep_idx(
                    *entity,
                    cv.take(i as int),
                    max_distance as int,
                ));
            }
        }
        proof {
            let ksn = keep_idx(*entity, cv.take(i + 1), max_distance as int);
            assert(docs@.len() == ksn.len());
            assert(forall|j: int|
                0 <= j < docs@.len() ==> {
                    &&& 0 <= #[trigger] ksn[j] < cv.len()
                    &&& doc_matches(docs@[j], *entity, cv[ksn[j]].record, cv[ksn[j]].similarity)
                    &&& docs@[j].distance <= max_distance
                });
        }
        i = i + 1;
    }
    proof {
        assert(cv.take(cv.len() as int) =~= cv);
    }
    docs
}

// ---------------------------------------------------------------------
// the orchestrator
// ---------------------------------------------------------------------

/// The resolution orchestrator: the watchlist snapshot used by the
/// substring fallback, the ANN index over the same records, and the name
/// comparator.
pub struct WarningNamesChecker<S: SmartNameChecker> {
    warning_names: Vec<Record>,
    name_checker: S,
    index: ANNIndex,
}

impl<S: SmartNameChecker> WarningNamesChecker<S> {
    /// The index is well-formed and built for `EMB_DIM`-dimensional
    /// embeddings.
    pub closed spec fn wf(self) -> bool {
        &&& self.index.wf()
        &&& self.index.spec_dim() == EMB_DIM as int
    }

    /// The watchlist snapshot the substring fallback scans.
    pub closed spec fn names_view(self) -> Seq<Record> {
        self.warning_names@
    }

    /// The records behind the ANN index, in insertion order.
    pub closed spec fn index_records(self) -> Seq<Record> {
        self.index.records_view()
    }

    /// Builds the checker: the index is filled with the given records in
    /// order, and the same records are retained as the snapshot.
    pub fn new(warning_names: Vec<Record>, name_checker: S) -> (r: Self)
        requires
            forall|i: int|
                0 <= i < warning_names@.len() ==> (#[trigger] warning_names@[i]).embedding@.len()
                    == EMB_DIM && warning_names@[i].valid(),
        ensures
            r.wf(),
            r.names_view() == warning_names@,
            r.index_records().len() == warning_names@.len(),
            forall|i: int|
                0 <= i < warning_names@.len() ==> record_like(
                    #[trigger] r.index_records()[i],
                    warning_names@[i],
                ),
    {
        let mut index = ANNIndex::new("warning-names", EMB_DIM);
        let mut i: usize = 0;
        while i < warning_names.len()
            invariant
                0 <= i <= warning_names@.len(),
                forall|j: int|
                    0 <= j < warning_names@.len() ==> (
                    #[trigger] warning_names@[j]).embedding@.len() == EMB_DIM
                        && warning_names@[j].valid(),
                index.wf(),
                index.spec_dim() == EMB_DIM as int,
                index.records_view().len() == i,
                forall|j: int|
                    0 <= j < i ==> record_like(
                        #[trigger] index.records_view()[j],
                        warning_names@[j],
                    ),
            decreases warning_names@.len() - i,
        {
            let rec = copy_record(&warning_names[i]);
            index.add(rec);
            i = i + 1;
        }
        WarningNamesChecker { warning_names, name_checker, index }
    }

    /// Top candidates for a query embedding: of the approximate neighbors
    /// the index returns, those at least `treshold`-similar, by descending
    /// exact similarity, at most `number`.
    pub fn get_must_relevant(&self, name: &Vec<i64>, number: usize, treshold: i64) -> (r: Vec<
        RecordWithRelevance,
    >)
        requires
            self.wf(),
            name@.len() == EMB_DIM,
            funcs::valid_embedding(name@),
            number <= 4096,
        ensures
            r@.len() <= number,
            forall|j: int|
                0 <= j < r@.len() ==> candidate_ok(
                    self.index_records(),
                    name@,
                    treshold as int,
                    #[trigger] r@[j],
                ),
            forall|a: int, b: int|
                0 <= a < b < r@.len() ==> r@[a].similarity >= r@[b].similarity,
            self.index_records().len() == 0 ==> r@.len() == 0,
    {
        let found = self.index.search(name, number);
        proof {
            self.index.lemma_wf_records_valid();
            assert forall|i: int| 0 <= i < found@.len() implies (#[trigger] found@[i]).valid() by {
                assert(from_live_record(self.index_records(), found@[i]));
                let m = choose|m: int|
                    0 <= m < self.index_records().len() && record_like(
                        found@[i],
                        self.index_records()[m],
                    ) && !self.index_records()[m].is_removed;
                assert(self.index_records()[m].valid());
            }
        }
        let ranked = checker_utils::get_must_relevant(
            name.as_slice(),
            found.as_slice(),
            number,
            treshold,
        );
        proof {
            let order = checker_utils::ranked_idx(
                found@,
                name@,
                treshold as int,
                number as int,
            );
            assert forall|j: int| 0 <= j < ranked@.len() implies candidate_ok(
                self.index_records(),
                name@,
                treshold as int,
                #[trigger] ranked@[j],
            ) by {
                let oj = order[j] as int;
                assert(record_like(ranked@[j].record, found@[oj]));
                assert(from_live_record(self.index_records(), found@[oj]));
                let m = choose|m: int|
                    0 <= m < self.index_records().len() && record_like(
                        found@[oj],
                        self.index_records()[m],
                    ) && !self.index_records()[m].is_removed;
                assert(ranked@[j].similarity == checker_utils::sim_at(found@, name@, oj));
                assert(found@[oj].embedding@ == self.index_records()[m].embedding@);
                assert(record_like(ranked@[j].record, self.index_records()[m]));
            }
            if self.index_records().len() == 0 {
                assert(found@.len() == 0);
                assert(checker_utils::filter_ge_idx(found@, name@, treshold as int)
                    =~= Seq::<usize>::empty());
                assert(checker_utils::ranked_idx(found@, name@, treshold as int, number as int).len()
                    == 0);
            }
        }
        ranked
    }

    /// One classification pass with an already-fetched embedding: retrieve
    /// top candidates, score each against the entity, keep those within
    /// `max_distance`, and deduplicate by category. `None` when no
    /// candidate survives.
    pub fn get_most_relevant_names(
        &self,
        treshold: i64,
        max_distance: usize,
        entity: &Entity,
        embedding: &Vec<i64>,
    ) -> (r: Option<WarningName>)
        requires
            self.wf(),
            embedding@.len() == EMB_DIM,
            funcs::valid_embedding(embedding@),
        ensures
            match r {
                Some(w) => warning_ok(
                    self.index_records(),
                    embedding@,
                    *entity,
                    treshold as int,
                    max_distance as int,
                    w,
                ),
                None => true,
            },
            self.index_records().len() == 0 ==> r is None,
    {
        let most_relevant = self.get_must_relevant(embedding, TOP_K, treshold);
        if most_relevant.len() == 0 {
            return None;
        }
        let ghost ir = self.index_records();
        let ghost qv = embedding@;
        let docs = build_docs(&self.name_checker, entity, &most_relevant, max_distance);
        proof {
            let ks = keep_idx(*entity, most_relevant@, max_distance as int);
            assert forall|j: int| 0 <= j < docs@.len() implies doc_ok(
                ir,
                qv,
                *entity,
                treshold as int,
                max_distance as int,
                #[trigger] docs@[j],
            ) by {
                let c = most_relevant@[ks[j]];
                assert(candidate_ok(ir, qv, treshold as int, c));
                let m = choose|m: int|
                    {
                        &&& 0 <= m < ir.len()
                        &&& !(#[trigger] ir[m]).is_removed
                        &&& record_like(c.record, ir[m])
                        &&& c.similarity == funcs::cosine_sim(qv, ir[m].embedding@)
                        &&& c.similarity >= treshold
                    };
                assert(doc_matches(docs@[j], *entity, c.record, c.similarity));
                assert(doc_matches(docs@[j], *entity, ir[m], docs@[j].similarity));
            }
        }
        if docs.len() == 0 {
            return None;
        }
        let ghost dv = docs@;
        let status_docs = process_docs(docs);
        proof {
            let sts = text::dedup_tokens(status_seq(dv));
            lemma_status_seq_props(dv);
            text::lemma_dedup_tokens_elems(status_seq(dv));
            assert(status_seq(dv).contains(status_seq(dv)[0]));
            assert(sts.len() >= 1) by {
                assert(sts.contains(status_seq(dv)[0]));
            }
            assert forall|j: int| 0 <= j < status_docs@.len() implies doc_ok(
                ir,
                qv,
                *entity,
                treshold as int,
                max_distance as int,
                #[trigger] status_docs@[j],
            ) by {
                assert(chosen_for(dv, sts[j], status_docs@[j]));
                let bi = choose|bi: int| #[trigger]
                    is_best_idx(dv, sts[j], bi) && doc_like(status_docs@[j], dv[bi]);
                assert(doc_ok(ir, qv, *entity, treshold as int, max_distance as int, dv[bi]));
                let m = choose|m: int|
                    {
                        &&& 0 <= m < ir.len()
                        &&& !(#[trigger] ir[m]).is_removed
                        &&& doc_matches(dv[bi], *entity, ir[m], dv[bi].similarity)
                        &&& dv[bi].similarity == funcs::cosine_sim(qv, ir[m].embedding@)
                        &&& dv[bi].similarity >= treshold
                        &&& dv[bi].distance <= max_distance
                    };
                assert(doc_matches(status_docs@[j], *entity, ir[m], status_docs@[j].similarity));
            }
        }
        Some(
            WarningName {
                name: entity.name.clone(),
                normal_name: entity.norm_name.clone(),
                context: entity.context.clone(),
                name_type: entity.entity_type.clone(),
                docs: status_docs,
            },
        )
    }
    /// Case-insensitive substring fallback for names the embedding
    /// provider cannot use: a record matches when its lower-cased name
    /// contains the lower-cased entity name.
    pub fn check_english_name(&self, entity: &Entity) -> (r: Option<WarningName>)
        ensures
            match r {
                Some(w) => {
                    &&& entity_fields_match(w, *entity)
                    &&& w.docs@.len() >= 1
                    &&& forall|j: int|
                        0 <= j < w.docs@.len() ==> english_doc_ok(
                            self.names_view(),
                            text::lower_seq(entity.name@),
                            #[trigger] w.docs@[j],
                        )
                    &&& forall|a: int, b: int|
                        0 <= a < b < w.docs@.len() ==> w.docs@[a].status@ != w.docs@[b].status@
                    &&& any_english_hit(self.names_view(), text::lower_seq(entity.name@))
                },
                None => !any_english_hit(self.names_view(), text::lower_seq(entity.name@)),
            },
    {
        let ghost wn = self.names_view();
        let test_chars = text::lower_vec(&text::to_char_vec(entity.name.as_str()));
        let ghost test = test_chars@;
        let mut docs: Vec<Doc> = Vec::new();
        let mut i: usize = 0;
        while i < self.warning_names.len()
            invariant
                0 <= i <= wn.len(),
                wn == self.names_view(),
                test == text::lower_seq(entity.name@),
                test == test_chars@,
                forall|j: int|
                    0 <= j < docs@.len() ==> english_doc_ok(wn, test, #[trigger] docs@[j]),
                docs@.len() == 0 ==> forall|m: int| 0 <= m < i ==> !english_hit(wn, test, m),
            decreases wn.len() - i,
        {
            let rec = &self.warning_names[i];
            let u_name = text::lower_vec(&text::to_char_vec(rec.name.as_str()));
            if text::contains_sub_exec(&u_name, &test_chars) {
                let doc = Doc {
                    status: rec.record_type.clone(),
                    similarity: funcs::SIM_SCALE,
                    distance: 0,
                    is_removed: rec.is_removed,
                    name: rec.name.clone(),
                    debug_distances: None,
                };
                let ghost old_docs = docs@;
                docs.push(doc);
                proof {
                    assert(english_hit(wn, test, i as int));
                    assert(english_doc_matches(doc, wn[i as int]));
                    assert forall|j: int| 0 <= j < docs@.len() implies english_doc_ok(
                        wn,
                        test,
                        #[trigger] docs@[j],
                    ) by {
                        if j < docs@.len() - 1 {
                            assert(docs@[j] == old_docs[j]);
                        } else {
                            assert(docs@[j] == doc);
                        }
                    }
                }
            }
            i = i + 1;
        }
        if docs.len() == 0 {
            proof {
                assert forall|m: int| 0 <= m < wn.len() implies !english_hit(wn, test, m) by {}
            }
            return None;
        }
        proof {
            assert(english_doc_ok(wn, test, docs@[0]));
            let m = choose|m: int| #[trigger] english_hit(wn, test, m) && english_doc_matches(
                docs@[0],
                wn[m],
            );
            assert(any_english_hit(wn, test));
        }
        let ghost dv = docs@;
        let new_docs = process_docs(docs);
        proof {
            let sts = text::dedup_tokens(status_seq(dv));
            lemma_status_seq_props(dv);
            text::lemma_dedup_tokens_elems(status_seq(dv));
            assert(sts.len() >= 1) by {
                assert(status_seq(dv).contains(status_seq(dv)[0]));
                assert(sts.contains(status_seq(dv)[0]));
            }
            assert forall|j: int| 0 <= j < new_docs@.len() implies english_doc_ok(
                wn,
                test,
                #[trigger] new_docs@[j],
            ) by {
                assert(chosen_for(dv, sts[j], new_docs@[j]));
                let bi = choose|bi: int| #[trigger]
                    is_best_idx(dv, sts[j], bi) && doc_like(new_docs@[j], dv[bi]);
                assert(english_doc_ok(wn, test, dv[bi]));
                let m = choose|m: int| #[trigger] english_hit(wn, test, m) && english_doc_matches(
                    dv[bi],
                    wn[m],
                );
                assert(english_doc_matches(new_docs@[j], wn[m]));
            }
        }
        Some(
            WarningName {
                name: entity.name.clone(),
                normal_name: entity.norm_name.clone(),
                name_type: entity.entity_type.clone(),
                context: entity.context.clone(),
                docs: new_docs,
            },
        )
    }

    /// Rebuilds the index from a fresh record set, discarding the old one.
    /// The snapshot used by the substring fallback is left as it was: only
    /// the index is replaced.
    pub fn change_warning_names(&mut self, new_warning_names: Vec<Record>)
        requires
            old(self).wf(),
            forall|i: int|
                0 <= i < new_warning_names@.len() ==> (
                #[trigger] new_warning_names@[i]).embedding@.len() == EMB_DIM
                    && new_warning_names@[i].valid(),
        ensures
            final(self).wf(),
            final(self).names_view() == old(self).names_view(),
            final(self).index_records().len() == new_warning_names@.len(),
            forall|i: int|
                0 <= i < new_warning_names@.len() ==> record_like(
                    #[trigger] final(self).index_records()[i],
                    new_warning_names@[i],
                ),
    {
        let mut new_index = ANNIndex::new("warning_names", EMB_DIM);
        let mut i: usize = 0;
        while i < new_warning_names.len()
            invariant
                0 <= i <= new_warning_names@.len(),
                forall|j: int|
                    0 <= j < new_warning_names@.len() ==> (
                    #[trigger] new_warning_names@[j]).embedding@.len() == EMB_DIM
                        && new_warning_names@[j].valid(),
                new_index.wf(),
                new_index.spec_dim() == EMB_DIM as int,
                new_index.records_view().len() == i,
                forall|j: int|
                    0 <= j < i ==> record_like(
                        #[trigger] new_index.records_view()[j],
                        new_warning_names@[j],
                    ),
            decreases new_warning_names@.len() - i,
        {
            let rec = copy_record(&new_warning_names[i]);
            new_index.add(rec);
            i = i + 1;
        }
        self.index = new_index;
    }

    /// Appends records: the snapshot grows and each record is inserted
    /// into the existing index, without a rebuild.
    pub fn add_warning_names(&mut self, new_warning_names: Vec<Record>)
        requires
            old(self).wf(),
            forall|i: int|
                0 <= i < new_warning_names@.len() ==> (
                #[trigger] new_warning_names@[i]).embedding@.len() == EMB_DIM
                    && new_warning_names@[i].valid(),
        ensures
            final(self).wf(),
            final(self).names_view().len() == old(self).names_view().len()
                + new_warning_names@.len(),
            forall|i: int|
                0 <= i < old(self).names_view().len() ==> #[trigger] final(self).names_view()[i]
                    == old(self).names_view()[i],
            forall|i: int|
                0 <= i < new_warning_names@.len() ==> record_like(
                    #[trigger] final(self).names_view()[old(self).names_view().len() + i],
                    new_warning_names@[i],
                ),
            final(self).index_records().len() == old(self).index_records().len()
                + new_warning_names@.len(),
            forall|i: int|
                0 <= i < old(self).index_records().len()
                    ==> #[trigger] final(self).index_records()[i] == old(self).index_records()[i],
            forall|i: int|
                0 <= i < new_warning_names@.len() ==> record_like(
                    #[trigger] final(self).index_records()[old(self).index_records().len() + i],
                    new_warning_names@[i],
                ),
    {
        let ghost old_names = self.warning_names@;
        let ghost old_recs = self.index.records_view();
        let mut i: usize = 0;
        while i < new_warning_names.len()
            invariant
                0 <= i <= new_warning_names@.len(),
                forall|j: int|
                    0 <= j < new_warning_names@.len() ==> (
                    #[trigger] new_warning_names@[j]).embedding@.len() == EMB_DIM
                        && new_warning_names@[j].valid(),
                self.index.wf(),
                self.index.spec_dim() == EMB_DIM as int,
                self.warning_names@.len() == old_names.len() + i,
                forall|j: int|
                    0 <= j < old_names.len() ==> #[trigger] self.warning_names@[j]
                        == old_names[j],
                forall|j: int|
                    0 <= j < i ==> record_like(
                        #[trigger] self.warning_names@[old_names.len() + j],
                        new_warning_names@[j],
                    ),
                self.index.records_view().len() == old_recs.len() + i,
                forall|j: int|
                    0 <= j < old_recs.len() ==> #[trigger] self.index.records_view()[j]
                        == old_recs[j],
                forall|j: int|
                    0 <= j < i ==> record_like(
                        #[trigger] self.index.records_view()[old_recs.len() + j],
                        new_warning_names@[j],
                    ),
            decreases new_warning_names@.len() - i,
        {
            let for_names = copy_record(&new_warning_names[i]);
            self.warning_names.push(for_names);
            let for_index = copy_record(&new_warning_names[i]);
            self.index.add(for_index);
            i = i + 1;
        }
    }
}

/// A match document of the substring fallback: full-scale similarity and
/// zero distance, no diagnostics.
pub open spec fn english_doc_matches(d: Doc, rec: Record) -> bool {
    &&& d.status@ == rec.record_type@
    &&& d.name@ == rec.name@
    &&& d.is_removed == rec.is_removed
    &&& d.similarity == funcs::SIM_SCALE
    &&& d.distance == 0
    &&& d.debug_distances is None
}

/// The lower-cased name of record `i` contains the lower-cased entity
/// name.
pub open spec fn english_hit(records: Seq<Record>, test: Seq<char>, i: int) -> bool {
    0 <= i < records.len() && text::contains_sub(text::lower_seq(records[i].name@), test)
}

pub open spec fn any_english_hit(records: Seq<Record>, test: Seq<char>) -> bool {
    exists|i: int| #[trigger] english_hit(records, test, i)
}

/// `d` is the substring-fallback doc of some record whose name contains
/// the entity name.
pub open spec fn english_doc_ok(records: Seq<Record>, test: Seq<char>, d: Doc) -> bool {
    exists|i: int| #[trigger] english_hit(records, test, i) && english_doc_matches(d, records[i])
}

// ---------------------------------------------------------------------
// the per-entity step machine
// ---------------------------------------------------------------------

/// What an embedding is being fetched for: the screening pass with the
/// confirmation bounds, or the low-confidence audit pass.
pub enum EmbedPurpose {
    Screen,
    Audit,
}

/// One entity's resolution: at most one of the two sides is set; an entity
/// in neither list does not occur.
pub struct EntityOutcome {
    pub warning: Option<WarningName>,
    pub accepted: Option<WarningName>,
}

/// Either the entity is resolved, or an embedding must be fetched for the
/// given text and the resolution resumed.
pub enum EntityStep {
    Finished(EntityOutcome),
    NeedEmbedding(String, EmbedPurpose),
}

/// PERSON and ORGANIZATION entities are scored; everything else is
/// accepted unscored.
pub open spec fn is_per_org(e: Entity) -> bool {
    e.entity_type@ == "PER"@ || e.entity_type@ == "ORG"@
}

impl<S: SmartNameChecker> WarningNamesChecker<S> {
    /// Starts resolving one entity. Entities that are not PERSON or
    /// ORGANIZATION are accepted unscored. A scorable entity whose name
    /// keeps no embeddable character goes through the substring fallback;
    /// otherwise its embedding must be fetched for the screening pass.
    pub fn entity_begin(&self, entity: &Entity) -> (r: EntityStep)
        ensures
            match r {
                EntityStep::Finished(o) => {
                    ||| {
                        &&& !is_per_org(*entity)
                        &&& o.warning is None
                        &&& o.accepted matches Some(w) && accepted_empty(w, *entity)
                    }
                    ||| {
                        &&& is_per_org(*entity)
                        &&& funcs::keep_russian_spec(entity.name@).len() == 0
                        &&& (o.warning matches Some(w) ==> {
                            &&& entity_fields_match(w, *entity)
                            &&& w.docs@.len() >= 1
                            &&& any_english_hit(
                                self.names_view(),
                                text::lower_seq(entity.name@),
                            )
                            &&& forall|j: int|
                                0 <= j < w.docs@.len() ==> english_doc_ok(
                                    self.names_view(),
                                    text::lower_seq(entity.name@),
                                    #[trigger] w.docs@[j],
                                )
                            &&& o.accepted is None
                        })
                        &&& (o.warning is None ==> {
                            &&& !any_english_hit(
                                self.names_view(),
                                text::lower_seq(entity.name@),
                            )
                            &&& o.accepted matches Some(w) && accepted_empty(w, *entity)
                        })
                    }
                },
                EntityStep::NeedEmbedding(name, p) => {
                    &&& is_per_org(*entity)
                    &&& name@ == funcs::keep_russian_spec(entity.name@)
                    &&& name@.len() > 0
                    &&& p is Screen
                },
            },
    {
        let etype = text::to_char_vec(entity.entity_type.as_str());
        let per_lit = text::to_char_vec("PER");
        let org_lit = text::to_char_vec("ORG");
        let is_per = text::chars_eq(&etype, &per_lit);
        let is_org = text::chars_eq(&etype, &org_lit);
        if !is_per && !is_org {
            return EntityStep::Finished(
                EntityOutcome {
                    warning: None,
                    accepted: Some(empty_outcome(entity)),
                },
            );
        }
        let name = funcs::keep_russian_and_dot(entity.name.as_str());
        if name.as_str().is_empty() {
            // unembeddable name: substring fallback
            match self.check_english_name(entity) {
                Some(w) => EntityStep::Finished(
                    EntityOutcome { warning: Some(w), accepted: None },
                ),
                None => EntityStep::Finished(
                    EntityOutcome {
                        warning: None,
                        accepted: Some(empty_outcome(entity)),
                    },
                ),
            }
        } else {
            EntityStep::NeedEmbedding(name, EmbedPurpose::Screen)
        }
    }

    /// Resumes one entity with a fetched embedding. The screening pass
    /// yields a warning on a match; with no match, the audit pass follows
    /// when low-confidence entries were asked for, else the entity is
    /// accepted. The audit pass always accepts, with the nearest records
    /// as diagnostics when any pass the relaxed bounds.
    pub fn entity_resume(
        &self,
        entity: &Entity,
        need_full_data: bool,
        purpose: EmbedPurpose,
        embedding: &Vec<i64>,
    ) -> (r: EntityStep)
        requires
            self.wf(),
            embedding@.len() == EMB_DIM,
            funcs::valid_embedding(embedding@),
        ensures
            match r {
                EntityStep::Finished(o) => match purpose {
                    EmbedPurpose::Screen => {
                        &&& (o.warning matches Some(w) ==> warning_ok(
                            self.index_records(),
                            embedding@,
                            *entity,
                            MAX_TRESHOLD as int,
                            MAX_DIS as int,
                            w,
                        ) && o.accepted is None)
                        &&& (o.warning is None ==> {
                            &&& !need_full_data
                            &&& o.accepted matches Some(w) && accepted_empty(w, *entity)
                        })
                    },
                    EmbedPurpose::Audit => {
                        &&& o.warning is None
                        &&& o.accepted matches Some(w) && (accepted_empty(w, *entity)
                            || warning_ok(
                            self.index_records(),
                            embedding@,
                            *entity,
                            0,
                            100,
                            w,
                        ))
                    },
                },
                EntityStep::NeedEmbedding(name, p) => {
                    &&& purpose is Screen
                    &&& need_full_data
                    &&& p is Audit
                    &&& name@ == funcs::keep_russian_spec(entity.name@)
                },
            },
    {
        match purpose {
            EmbedPurpose::Screen => {
                let processed = self.get_most_relevant_names(
                    MAX_TRESHOLD,
                    MAX_DIS,
                    entity,
                    embedding,
                );
                match processed {
                    Some(w) => EntityStep::Finished(
                        EntityOutcome { warning: Some(w), accepted: None },
                    ),
                    None => {
                        if need_full_data {
                            let name = funcs::keep_russian_and_dot(entity.name.as_str());
                            EntityStep::NeedEmbedding(name, EmbedPurpose::Audit)
                        } else {
                            EntityStep::Finished(
                                EntityOutcome {
                                    warning: None,
                                    accepted: Some(empty_outcome(entity)),
                                },
                            )
                        }
                    },
                }
            },
            EmbedPurpose::Audit => {
                let most_relevant = self.get_most_relevant_names(0, 100, entity, embedding);
                match most_relevant {
                    Some(w) => EntityStep::Finished(
                        EntityOutcome { warning: None, accepted: Some(w) },
                    ),
                    None => EntityStep::Finished(
                        EntityOutcome {
                            warning: None,
                            accepted: Some(empty_outcome(entity)),
                        },
                    ),
                }
            },
        }
    }
}

/// An accepted entry with no documents, carrying the entity's fields.
pub fn empty_outcome(entity: &Entity) -> (w: WarningName)
    ensures
        accepted_empty(w, *entity),
{
    WarningName {
        name: entity.name.clone(),
        normal_name: entity.norm_name.clone(),
        context: entity.context.clone(),
        name_type: entity.entity_type.clone(),
        docs: Vec::new(),
    }
}

// ---------------------------------------------------------------------
// aggregation
// ---------------------------------------------------------------------

pub open spec fn all_ok(rs: Seq<Result<EntityOutcome, ErrorS>>) -> bool {
    forall|j: int| 0 <= j < rs.len() ==> (#[trigger] rs[j]) is Ok
}

/// Index of the first error.
pub open spec fn first_err_idx(rs: Seq<Result<EntityOutcome, ErrorS>>) -> int
    decreases rs.len(),
{
    if rs.len() == 0 {
        0
    } else if rs[0] is Err {
        0
    } else {
        1 + first_err_idx(rs.drop_first())
    }
}

/// The warning entries of the outcomes, in order.
pub open spec fn warnings_of(rs: Seq<Result<EntityOutcome, ErrorS>>) -> Seq<WarningName>
    decreases rs.len(),
{
    if rs.len() == 0 {
        Seq::empty()
    } else {
        warnings_of(rs.drop_last()) + (match rs.last() {
            Ok(o) => match o.warning {
                Some(w) => seq![w],
                None => Seq::empty(),
            },
            Err(_) => Seq::empty(),
        })
    }
}

/// The accepted entries of the outcomes, in order.
pub open spec fn accepted_of(rs: Seq<Result<EntityOutcome, ErrorS>>) -> Seq<WarningName>
    decreases rs.len(),
{
    if rs.len() == 0 {
        Seq::empty()
    } else {
        accepted_of(rs.drop_last()) + (match rs.last() {
            Ok(o) => match o.accepted {
                Some(w) => seq![w],
                None => Seq::empty(),
            },
            Err(_) => Seq::empty(),
        })
    }
}

/// Joins per-entity outcomes in extraction order: any failed entity fails
/// the whole document with its first error; otherwise warnings and
/// accepted entries are collected in order.
pub fn collect_outcomes(results: &mut Vec<Result<EntityOutcome, ErrorS>>) -> (r: Result<
    WarningNames,
    ErrorS,
>)
    ensures
        r is Ok <==> all_ok(old(results)@),
        r matches Ok(wn) ==> wn.warnings@ == warnings_of(old(results)@) && wn.accepted_names@
            == accepted_of(old(results)@),
        r matches Err(e) ==> 0 <= first_err_idx(old(results)@) < old(results)@.len() && old(
            results,
        )@[first_err_idx(old(results)@)] == Err::<EntityOutcome, ErrorS>(e),
{
    let ghost rv = old(results)@;
    let rest = results;
    let mut inos: Vec<WarningName> = Vec::new();
    let mut accepted_names: Vec<WarningName> = Vec::new();
    let ghost mut seen: int = 0;
    while rest.len() > 0
        invariant
            rv == old(results)@,
            0 <= seen <= rv.len(),
            rest@ =~= rv.skip(seen),
            forall|j: int| 0 <= j < seen ==> (#[trigger] rv[j]) is Ok,
            inos@ == warnings_of(rv.take(seen)),
            accepted_names@ == accepted_of(rv.take(seen)),
        decreases rest@.len(),
    {
        let res = rest.remove(0);
        proof {
            assert(res == rv[seen]);
            assert(rest@ =~= rv.skip(seen + 1));
            assert(rv.take(seen + 1).drop_last() =~= rv.take(seen));
            assert(rv.take(seen + 1).last() == rv[seen]);
        }
        match res {
            Ok(o) => {
                match o.warning {
                    Some(w) => {
                        inos.push(w);
                        proof {
                            assert(inos@ =~= warnings_of(rv.take(seen + 1)));
                        }
                    },
                    None => {
                        proof {
                            assert(inos@ =~= warnings_of(rv.take(seen + 1)));
                        }
                    },
                }
                match o.accepted {
                    Some(a) => {
                        accepted_names.push(a);
                        proof {
                            assert(accepted_names@ =~= accepted_of(rv.take(seen + 1)));
                        }
                    },
                    None => {
                        proof {
                            assert(accepted_names@ =~= accepted_of(rv.take(seen + 1)));
                        }
                    },
                }
                proof {
                    seen = seen + 1;
                }
            },
            Err(e) => {
                proof {
                    lemma_first_err_at(rv, seen);
                }
                return Err(e);
            },
        }
    }
    proof {
        assert(seen == rv.len());
        assert(rv.take(rv.len() as int) =~= rv);
    }
    Ok(WarningNames { warnings: inos, accepted_names })
}

proof fn lemma_first_err_at(rs: Seq<Result<EntityOutcome, ErrorS>>, i: int)
    requires
        0 <= i < rs.len(),
        rs[i] is Err,
        forall|j: int| 0 <= j < i ==> (#[trigger] rs[j]) is Ok,
    ensures
        first_err_idx(rs) == i,
        !all_ok(rs),
    decreases i,
{
    if i == 0 {
    } else {
        assert(rs[0] is Ok);
        assert forall|j: int| 0 <= j < i - 1 implies (#[trigger] rs.drop_first()[j]) is Ok by {
            assert(rs.drop_first()[j] == rs[j + 1]);
        }
        lemma_first_err_at(rs.drop_first(), i - 1);
    }
}

/// Law: when every entity succeeds and none yields a warning, the
/// aggregate has an empty warning list and one accepted entry per entity.
pub proof fn lemma_collect_all_accepted(rs: Seq<Result<EntityOutcome, ErrorS>>)
    requires
        forall|j: int|
            0 <= j < rs.len() ==> ((#[trigger] rs[j]) matches Ok(o) && o.warning is None
                && o.accepted is Some),
    ensures
        warnings_of(rs).len() == 0,
        accepted_of(rs).len() == rs.len(),
    decreases rs.len(),
{
    if rs.len() > 0 {
        assert forall|j: int| 0 <= j < rs.len() - 1 implies ((
        #[trigger] rs.drop_last()[j]) matches Ok(o) && o.warning is None && o.accepted
            is Some) by {
            assert(rs.drop_last()[j] == rs[j]);
        }
        lemma_collect_all_accepted(rs.drop_last());
        assert((rs[rs.len() - 1] matches Ok(o) && o.warning is None && o.accepted is Some));
    }
}

} // verus!
