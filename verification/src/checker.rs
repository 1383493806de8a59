//! The scan-based resolution pipeline: classification against a watchlist
//! slice handed in per call, without the ANN index. The candidate
//! retrieval is an exact linear scan, so which candidates are scored is
//! fully determined; the person-name signal here is the free-function
//! comparator, whose token-set distances do not case-fold.

use vstd::prelude::*;
use crate::checker_utils;
use crate::db::Record;
use crate::funcs;
use crate::model::{Distances, Doc, RecordWithRelevance, WarningName};
use crate::name_checker;
use crate::ner::Entity;
use crate::new_checker::{
    accepted_empty, chosen_for, d_norm, d_raw, entity_fields_match, is_per_org, person_folds,
    process_docs, status_seq, EmbedPurpose, EntityOutcome, EntityStep, MAX_DIS, MAX_TRESHOLD,
    TOP_K,
};
use crate::text;

verus! {

/// The person-name distance signal without case folding inside the
/// token-set distances.
pub open spec fn d_person_scan(e: Entity, rname: Seq<char>) -> int {
    name_checker::person_distance(text::lower_seq(e.name@), text::ascii_lower_seq(rname), false)
}

/// The fused distance of the scan pipeline before saturation.
pub open spec fn fused_scan(e: Entity, rname: Seq<char>) -> int {
    if person_folds(e) {
        name_checker::min_int(
            name_checker::min_int(d_norm(e, rname), d_person_scan(e, rname)),
            name_checker::min_int(d_raw(e, rname), d_person_scan(e, rname)),
        )
    } else {
        name_checker::min_int(d_norm(e, rname), d_raw(e, rname))
    }
}

pub open spec fn distances_match_scan(d: Distances, e: Entity, rname: Seq<char>) -> bool {
    &&& d.not_normal_dis == funcs::sat_usize(d_raw(e, rname))
    &&& d.normal_dis == funcs::sat_usize(d_norm(e, rname))
    &&& if person_folds(e) {
        d.name_dis matches Some(nd) && nd == funcs::sat_usize(d_person_scan(e, rname))
    } else {
        d.name_dis is None
    }
}

pub open spec fn doc_matches_scan(d: Doc, e: Entity, rec: Record, sim: i64) -> bool {
    &&& d.status@ == rec.record_type@
    &&& d.name@ == rec.name@
    &&& d.is_removed == rec.is_removed
    &&& d.similarity == sim
    &&& d.distance == funcs::sat_usize(fused_scan(e, rec.name@))
    &&& d.debug_distances matches Some(dd) && distances_match_scan(dd, e, rec.name@)
}

/// `d` is derived from some watchlist record that passed the similarity
/// threshold, with the exact fused distance at or under the bound. The
/// scan does not skip removed records.
pub open spec fn doc_ok_scan(
    records: Seq<Record>,
    q: Seq<i64>,
    e: Entity,
    t: int,
    maxd: int,
    d: Doc,
) -> bool {
    exists|i: int|
        {
            &&& 0 <= i < records.len()
            &&& doc_matches_scan(d, e, records[i], d.similarity)
            &&& d.similarity == funcs::cosine_sim(q, records[i].embedding@)
            &&& d.similarity >= t
            &&& d.distance <= maxd
        }
}

pub open spec fn warning_ok_scan(
    records: Seq<Record>,
    q: Seq<i64>,
    e: Entity,
    t: int,
    maxd: int,
    w: WarningName,
) -> bool {
    &&& entity_fields_match(w, e)
    &&& w.docs@.len() >= 1
    &&& forall|j: int|
        0 <= j < w.docs@.len() ==> doc_ok_scan(records, q, e, t, maxd, #[trigger] w.docs@[j])
    &&& forall|a: int, b: int|
        0 <= a < b < w.docs@.len() ==> w.docs@[a].status@ != w.docs@[b].status@
}

/// Linear-scan retrieval: the records at least `treshold`-similar to the
/// query, ordered by descending similarity, at most `number` of them.
pub fn get_must_relevant(name: &[i64], inoagents: &[Record], number: usize, treshold: i64) -> (r:
    Vec<RecordWithRelevance>)
    requires
        funcs::valid_embedding(name@),
        forall|i: int| 0 <= i < inoagents@.len() ==> (#[trigger] inoagents@[i]).valid(),
    ensures
        ({
            let order = checker_utils::ranked_idx(inoagents@, name@, treshold as int, number as int);
            &&& r@.len() == order.len()
            &&& forall|j: int|
                0 <= j < r@.len() ==> {
                    &&& 0 <= #[trigger] order[j] < inoagents@.len()
                    &&& crate::db::record_like(r@[j].record, inoagents@[order[j] as int])
                    &&& r@[j].similarity == checker_utils::sim_at(inoagents@, name@, order[j] as int)
                }
        }),
        forall|j: int| 0 <= j < r@.len() ==> (#[trigger] r@[j]).similarity >= treshold,
        forall|a: int, b: int| 0 <= a < b < r@.len() ==> r@[a].similarity >= r@[b].similarity,
{
    checker_utils::get_must_relevant(name, inoagents, number, treshold)
}

/// Positions in the retrieval order whose record's fused distance stays
/// within the bound, in order.
pub open spec fn scan_keep_pos(
    records: Seq<Record>,
    e: Entity,
    maxd: int,
    order: Seq<usize>,
) -> Seq<int>
    decreases order.len(),
{
    if order.len() == 0 {
        Seq::empty()
    } else {
        let rest = scan_keep_pos(records, e, maxd, order.drop_last());
        if funcs::sat_usize(fused_scan(e, records[order.last() as int].name@)) <= maxd {
            rest.push(order.len() - 1)
        } else {
            rest
        }
    }
}

proof fn lemma_scan_keep_pos_props(records: Seq<Record>, e: Entity, maxd: int, order: Seq<usize>)
    ensures
        forall|j: int|
            0 <= j < scan_keep_pos(records, e, maxd, order).len() ==> 0 <= #[trigger] scan_keep_pos(
                records,
                e,
                maxd,
                order,
            )[j] < order.len(),
    decreases order.len(),
{
    if order.len() > 0 {
        lemma_scan_keep_pos_props(records, e, maxd, order.drop_last());
        let rest = scan_keep_pos(records, e, maxd, order.drop_last());
        assert forall|j: int| 0 <= j < scan_keep_pos(records, e, maxd, order).len() implies 0
            <= #[trigger] scan_keep_pos(records, e, maxd, order)[j] < order.len() by {
            if j < rest.len() {
                assert(scan_keep_pos(records, e, maxd, order)[j] == rest[j]);
            }
        }
    }
}

/// The statuses of the surviving candidates' records, in order.
pub open spec fn scan_kept_statuses(
    records: Seq<Record>,
    order: Seq<usize>,
    pos: Seq<int>,
) -> Seq<Seq<char>>
    decreases pos.len(),
{
    if pos.len() == 0 {
        Seq::empty()
    } else {
        scan_kept_statuses(records, order, pos.drop_last()).push(
            records[order[pos.last()] as int].record_type@,
        )
    }
}

proof fn lemma_scan_kept_statuses_props(records: Seq<Record>, order: Seq<usize>, pos: Seq<int>)
    requires
        forall|j: int| 0 <= j < pos.len() ==> 0 <= #[trigger] pos[j] < order.len(),
    ensures
        scan_kept_statuses(records, order, pos).len() == pos.len(),
        forall|j: int|
            0 <= j < pos.len() ==> #[trigger] scan_kept_statuses(records, order, pos)[j]
                == records[order[pos[j]] as int].record_type@,
    decreases pos.len(),
{
    if pos.len() > 0 {
        assert forall|j: int| 0 <= j < pos.drop_last().len() implies 0
            <= #[trigger] pos.drop_last()[j] < order.len() by {
            assert(pos.drop_last()[j] == pos[j]);
        }
        lemma_scan_kept_statuses_props(records, order, pos.drop_last());
    }
}

/// One scan classification with an already-fetched embedding: retrieve the
/// top candidates by linear scan, score each, keep those within
/// `max_distance`, deduplicate by category. Everything is determined by
/// the arguments: the result is `None` exactly when no retrieved candidate
/// survives the distance bound; otherwise one doc per surviving category,
/// in first-appearance order, each carrying the least fused distance of
/// its category's survivors.
pub fn get_most_relevant_names(
    treshold: i64,
    max_distance: usize,
    entity: &Entity,
    inoagents: &[Record],
    embedding: &Vec<i64>,
) -> (r: Option<WarningName>)
    requires
        funcs::valid_embedding(embedding@),
        forall|i: int| 0 <= i < inoagents@.len() ==> (#[trigger] inoagents@[i]).valid(),
    ensures
        match r {
            Some(w) => warning_ok_scan(
                inoagents@,
                embedding@,
                *entity,
                treshold as int,
                max_distance as int,
                w,
            ),
            None => true,
        },
        ({
            let order = checker_utils::ranked_idx(
                inoagents@,
                embedding@,
                treshold as int,
                TOP_K as int,
            );
            let kp = scan_keep_pos(inoagents@, *entity, max_distance as int, order);
            &&& (r is None <==> kp.len() == 0)
            &&& (r matches Some(w) ==> ({
                let sts = text::dedup_tokens(scan_kept_statuses(inoagents@, order, kp));
                &&& w.docs@.len() == sts.len()
                &&& (forall|m: int|
                    0 <= m < w.docs@.len() ==> (#[trigger] w.docs@[m]).status@ == sts[m])
                &&& (forall|m: int, p: int|
                    #![trigger w.docs@[m], kp[p]]
                    0 <= m < w.docs@.len() && 0 <= p < kp.len() && inoagents@[order[kp[p]] as int].record_type@
                        == w.docs@[m].status@ ==> w.docs@[m].distance <= funcs::sat_usize(
                        fused_scan(*entity, inoagents@[order[kp[p]] as int].name@),
                    ))
            }))
        }),
{
    let most_relevant = get_must_relevant(embedding.as_slice(), inoagents, TOP_K, treshold);
    let ghost ir = inoagents@;
    let ghost qv = embedding@;
    let ghost order = checker_utils::ranked_idx(ir, qv, treshold as int, TOP_K as int);
    if most_relevant.len() == 0 {
        proof {
            assert(order.len() == 0);
            assert(scan_keep_pos(ir, *entity, max_distance as int, order) =~= Seq::<int>::empty());
        }
        return None;
    }
    let mut docs: Vec<Doc> = Vec::new();
    proof {
        assert(order.take(0) =~= Seq::<usize>::empty());
        assert(scan_keep_pos(ir, *entity, max_distance as int, order.take(0)) =~= Seq::<
            int,
        >::empty());
    }
    let mut i: usize = 0;
    while i < most_relevant.len()
        invariant
            0 <= i <= most_relevant@.len(),
            ir == inoagents@,
            qv == embedding@,
            order == checker_utils::ranked_idx(ir, qv, treshold as int, TOP_K as int),
            most_relevant@.len() == order.len(),
            forall|j: int|
                0 <= j < most_relevant@.len() ==> {
                    &&& 0 <= #[trigger] order[j] < ir.len()
                    &&& crate::db::record_like(most_relevant@[j].record, ir[order[j] as int])
                    &&& most_relevant@[j].similarity == checker_utils::sim_at(
                        ir,
                        qv,
                        order[j] as int,
                    )
                    &&& most_relevant@[j].similarity >= treshold
                },
            ({
                let kp = scan_keep_pos(ir, *entity, max_distance as int, order.take(i as int));
                &&& docs@.len() == kp.len()
                &&& forall|j: int|
                    0 <= j < docs@.len() ==> {
                        &&& 0 <= #[trigger] kp[j] < i
                        &&& docs@[j].status@ == ir[order[kp[j]] as int].record_type@
                        &&& docs@[j].distance == funcs::sat_usize(
                            fused_scan(*entity, ir[order[kp[j]] as int].name@),
                        )
                    }
            }),
            forall|j: int|
                0 <= j < docs@.len() ==> doc_ok_scan(
                    ir,
                    qv,
                    *entity,
                    treshold as int,
                    max_distance as int,
                    #[trigger] docs@[j],
                ),
        decreases most_relevant@.len() - i,
    {
        proof {
            assert(order.take(i + 1).drop_last() =~= order.take(i as int));
            assert(order.take(i + 1).last() == order[i as int]);
            assert(forall|j: int|
                0 <= j < i ==> #[trigger] order.take(i as int)[j] == order[j]);
        }
        let ag = &most_relevant[i];
        let rname = text::to_char_vec(ag.record.name.as_str());
        let lr = text::lower_vec(&rname);
        let ln = text::lower_vec(&text::to_char_vec(entity.norm_name.as_str()));
        let lnr = text::lower_vec(&text::to_char_vec(entity.name.as_str()));
        let dis0 = funcs::token_set_distance_chars(&ln, &lr);
        let dis2_0 = funcs::token_set_distance_chars(&lnr, &lr);
        let mut dis = dis0;
        let mut dis2 = dis2_0;
        let mut name_dis_field: Option<usize> = None;
        let etype = text::to_char_vec(entity.entity_type.as_str());
        let per_lit = text::to_char_vec("PER");
        let name_chars = text::to_char_vec(entity.name.as_str());
        let is_per = text::chars_eq(&etype, &per_lit);
        let has_dot = text::contains_char(&name_chars, '.');
        if is_per && has_dot {
            let low_name = text::string_from_chars(&lnr);
            let alow_rec = text::string_from_chars(&text::ascii_lower_vec(&rname));
            let name_dis = name_checker::compare_names(low_name.as_str(), alow_rec.as_str());
            name_dis_field = Some(name_dis);
            if name_dis < dis {
                dis = name_dis;
            }
            if name_dis < dis2 {
                dis2 = name_dis;
            }
        }
        if dis2 < dis {
            dis = dis2;
        }
        proof {
            assert(dis == funcs::sat_usize(fused_scan(*entity, ag.record.name@)));
            assert(ag.record.name@ == ir[order[i as int] as int].name@);
            assert(dis == funcs::sat_usize(fused_scan(*entity, ir[order[i as int] as int].name@)));
        }
        let ghost kp0 = scan_keep_pos(ir, *entity, max_distance as int, order.take(i as int));
        if dis <= max_distance {
            let distances = Distances {
                not_normal_dis: dis2_0,
                normal_dis: dis0,
                name_dis: name_dis_field,
            };
            let doc = Doc {
                name: ag.record.name.clone(),
                is_removed: ag.record.is_removed,
                status: ag.record.record_type.clone(),
                similarity: ag.similarity,
                distance: dis,
                debug_distances: Some(distances),
            };
            let ghost old_docs = docs@;
            docs.push(doc);
            proof {
                let m = order[i as int] as int;
                assert(doc_matches_scan(doc, *entity, ir[m], doc.similarity));
                assert(doc_ok_scan(ir, qv, *entity, treshold as int, max_distance as int, doc));
                let kp1 = scan_keep_pos(ir, *entity, max_distance as int, order.take(i + 1));
                assert(kp1 =~= kp0.push(i as int));
                assert forall|j: int| 0 <= j < docs@.len() implies {
                    &&& 0 <= #[trigger] kp1[j] < i + 1
                    &&& docs@[j].status@ == ir[order[kp1[j]] as int].record_type@
                    &&& docs@[j].distance == funcs::sat_usize(
                        fused_scan(*entity, ir[order[kp1[j]] as int].name@),
                    )
                    &&& doc_ok_scan(
                        ir,
                        qv,
                        *entity,
                        treshold as int,
                        max_distance as int,
                        docs@[j],
                    )
                } by {
                    if j < docs@.len() - 1 {
                        assert(docs@[j] == old_docs[j]);
                        assert(kp1[j] == kp0[j]);
                    } else {
                        assert(kp1[j] == i as int);
                        assert(docs@[j] == doc);
                    }
                }
            }
        } else {
            proof {
                assert(scan_keep_pos(ir, *entity, max_distance as int, order.take(i + 1))
                    =~= kp0);
            }
        }
        i = i + 1;
    }
    proof {
        assert(order.take(order.len() as int) =~= order);
    }
    let ghost kp = scan_keep_pos(ir, *entity, max_distance as int, order);
    if docs.len() == 0 {
        return None;
    }
    let ghost dv = docs@;
    let status_docs = process_docs(docs);
    proof {
        let sts = text::dedup_tokens(status_seq(dv));
        crate::new_checker::lemma_status_seq_props(dv);
        text::lemma_dedup_tokens_elems(status_seq(dv));
        assert(sts.len() >= 1) by {
            assert(status_seq(dv).contains(status_seq(dv)[0]));
            assert(sts.contains(status_seq(dv)[0]));
        }
        // the doc statuses are the surviving records' statuses
        lemma_scan_keep_pos_props(ir, *entity, max_distance as int, order);
        lemma_scan_kept_statuses_props(ir, order, kp);
        assert(status_seq(dv) =~~= scan_kept_statuses(ir, order, kp));
        assert forall|j: int| 0 <= j < status_docs@.len() implies doc_ok_scan(
            ir,
            qv,
            *entity,
            treshold as int,
            max_distance as int,
            #[trigger] status_docs@[j],
        ) by {
            assert(chosen_for(dv, sts[j], status_docs@[j]));
            let bi = choose|bi: int| #[trigger]
                crate::new_checker::is_best_idx(dv, sts[j], bi) && crate::model::doc_like(
                    status_docs@[j],
                    dv[bi],
                );
            assert(doc_ok_scan(ir, qv, *entity, treshold as int, max_distance as int, dv[bi]));
            let m = choose|m: int|
                {
                    &&& 0 <= m < ir.len()
                    &&& doc_matches_scan(dv[bi], *entity, ir[m], dv[bi].similarity)
                    &&& dv[bi].similarity == funcs::cosine_sim(qv, ir[m].embedding@)
                    &&& dv[bi].similarity >= treshold
                    &&& dv[bi].distance <= max_distance
                };
            assert(doc_matches_scan(status_docs@[j], *entity, ir[m], status_docs@[j].similarity));
        }
        // least distance per surviving category
        assert forall|m: int, p: int|
            #![trigger status_docs@[m], kp[p]]
            0 <= m < status_docs@.len() && 0 <= p < kp.len() && ir[order[kp[p]] as int].record_type@
                == status_docs@[m].status@ implies status_docs@[m].distance <= funcs::sat_usize(
            fused_scan(*entity, ir[order[kp[p]] as int].name@),
        ) by {
            assert(chosen_for(dv, sts[m], status_docs@[m]));
            let bi = choose|bi: int| #[trigger]
                crate::new_checker::is_best_idx(dv, sts[m], bi) && crate::model::doc_like(
                    status_docs@[m],
                    dv[bi],
                );
            assert(dv[p].status@ == ir[order[kp[p]] as int].record_type@);
            assert(dv[p].status@ == sts[m]);
            assert(dv[bi].distance <= dv[p].distance);
            assert(dv[p].distance == funcs::sat_usize(
                fused_scan(*entity, ir[order[kp[p]] as int].name@),
            ));
        }
    }
    Some(
        WarningName {
            name: entity.name.clone(),
            normal_name: entity.norm_name.clone(),
            context: entity.context.clone(),
            name_type: entity.entity_type.clone(),
            docs: status_docs,
        },
    )
}

/// Starts resolving one entity in the scan pipeline: entities that are not
/// PERSON or ORGANIZATION are accepted unscored; everything else needs an
/// embedding of its raw name.
pub fn scan_entity_begin(entity: &Entity) -> (r: EntityStep)
    ensures
        match r {
            EntityStep::Finished(o) => {
                &&& !is_per_org(*entity)
                &&& o.warning is None
                &&& o.accepted matches Some(w) && accepted_empty(w, *entity)
            },
            EntityStep::NeedEmbedding(name, p) => {
                &&& is_per_org(*entity)
                &&& name@ == entity.name@
                &&& p is Screen
            },
        },
{
    let etype = text::to_char_vec(entity.entity_type.as_str());
    let per_lit = text::to_char_vec("PER");
    let org_lit = text::to_char_vec("ORG");
    let is_per = text::chars_eq(&etype, &per_lit);
    let is_org = text::chars_eq(&etype, &org_lit);
    if !is_per && !is_org {
        EntityStep::Finished(
            EntityOutcome {
                warning: None,
                accepted: Some(crate::new_checker::empty_outcome(entity)),
            },
        )
    } else {
        EntityStep::NeedEmbedding(entity.name.clone(), EmbedPurpose::Screen)
    }
}

/// Resumes one entity of the scan pipeline with a fetched embedding,
/// with the outcome determined by the arguments: a screening survivor
/// makes the entity a warning; with none, the audit pass follows when
/// low-confidence entries were asked for, else the entity is accepted
/// unscored. The audit pass records a nearest-record diagnostic entry
/// exactly when a candidate passes the relaxed bounds, and otherwise
/// drops the entity from both lists.
pub fn scan_entity_resume(
    entity: &Entity,
    need_full_data: bool,
    purpose: EmbedPurpose,
    inoagents: &[Record],
    embedding: &Vec<i64>,
) -> (r: EntityStep)
    requires
        funcs::valid_embedding(embedding@),
        forall|i: int| 0 <= i < inoagents@.len() ==> (#[trigger] inoagents@[i]).valid(),
    ensures
        match r {
            EntityStep::Finished(o) => match purpose {
                EmbedPurpose::Screen => {
                    &&& (o.warning is Some <==> scan_keep_pos(
                        inoagents@,
                        *entity,
                        MAX_DIS as int,
                        checker_utils::ranked_idx(
                            inoagents@,
                            embedding@,
                            MAX_TRESHOLD as int,
                            TOP_K as int,
                        ),
                    ).len() > 0)
                    &&& (o.warning matches Some(w) ==> warning_ok_scan(
                        inoagents@,
                        embedding@,
                        *entity,
                        MAX_TRESHOLD as int,
                        MAX_DIS as int,
                        w,
                    ) && o.accepted is None)
                    &&& (o.warning is None ==> {
                        &&& !need_full_data
                        &&& o.accepted matches Some(w) && accepted_empty(w, *entity)
                    })
                },
                EmbedPurpose::Audit => {
                    &&& o.warning is None
                    &&& (o.accepted is Some <==> scan_keep_pos(
                        inoagents@,
                        *entity,
                        100,
                        checker_utils::ranked_idx(inoagents@, embedding@, 0, TOP_K as int),
                    ).len() > 0)
                    &&& (o.accepted matches Some(w) ==> warning_ok_scan(
                        inoagents@,
                        embedding@,
                        *entity,
                        0,
                        100,
                        w,
                    ))
                },
            },
            EntityStep::NeedEmbedding(name, p) => {
                &&& purpose is Screen
                &&& need_full_data
                &&& p is Audit
                &&& name@ == entity.name@
                &&& scan_keep_pos(
                    inoagents@,
                    *entity,
                    MAX_DIS as int,
                    checker_utils::ranked_idx(
                        inoagents@,
                        embedding@,
                        MAX_TRESHOLD as int,
                        TOP_K as int,
                    ),
                ).len() == 0
            },
        },
{
    match purpose {
        EmbedPurpose::Screen => {
            let processed = get_most_relevant_names(
                MAX_TRESHOLD,
                MAX_DIS,
                entity,
                inoagents,
                embedding,
            );
            match processed {
                Some(w) => EntityStep::Finished(
                    EntityOutcome { warning: Some(w), accepted: None },
                ),
                None => {
                    if need_full_data {
                        EntityStep::NeedEmbedding(entity.name.clone(), EmbedPurpose::Audit)
                    } else {
                        EntityStep::Finished(
                            EntityOutcome {
                                warning: None,
                                accepted: Some(crate::new_checker::empty_outcome(entity)),
                            },
                        )
                    }
                },
            }
        },
        EmbedPurpose::Audit => {
            let most_relevant = get_most_relevant_names(0, 100, entity, inoagents, embedding);
            match most_relevant {
                Some(w) => EntityStep::Finished(
                    EntityOutcome { warning: None, accepted: Some(w) },
                ),
                None => EntityStep::Finished(EntityOutcome { warning: None, accepted: None }),
            }
        },
    }
}

} // verus!
