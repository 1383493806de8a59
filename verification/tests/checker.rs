//! The orchestrator end to end: index-backed classification, the substring
//! fallback, per-category deduplication, watchlist replacement, and
//! outcome aggregation.

use ino_checker::api::ErrorS;
use ino_checker::db::Record;
use ino_checker::funcs::SIM_SCALE;
use ino_checker::model::{Distances, Doc};
use ino_checker::ner::Entity;
use ino_checker::new_checker::{
    collect_outcomes, process_docs, EntityOutcome, EntityStep, WarningNamesChecker,
    EMB_DIM,
};
use ino_checker::new_name_checker::NameChecker;

fn embedding(seed: &[i64]) -> Vec<i64> {
    let mut v = vec![0i64; EMB_DIM];
    for (i, &x) in seed.iter().enumerate() {
        v[i] = x;
    }
    v
}

fn record(name: &str, status: &str, seed: &[i64], removed: bool) -> Record {
    Record {
        name: name.to_string(),
        record_type: status.to_string(),
        embedding: embedding(seed),
        is_removed: removed,
    }
}

fn entity(name: &str, norm: &str, ty: &str) -> Entity {
    Entity {
        name: name.to_string(),
        norm_name: norm.to_string(),
        entity_type: ty.to_string(),
        context: "ctx".to_string(),
    }
}

fn checker_with(records: Vec<Record>) -> WarningNamesChecker<NameChecker> {
    WarningNamesChecker::new(records, NameChecker::new())
}

#[test]
fn exact_match_becomes_a_warning_with_zero_distance() {
    let checker = checker_with(vec![
        record("иванов иван", "sanctioned", &[1000, 0, 0], false),
        record("петров петр", "sanctioned", &[0, 1000, 0], false),
    ]);
    let e = entity("иванов иван", "иванов иван", "PER");
    let step = checker.entity_begin(&e);
    let (name, purpose) = match step {
        EntityStep::NeedEmbedding(name, p) => (name, p),
        EntityStep::Finished(_) => panic!("expected an embedding request"),
    };
    // the embedding request carries only the characters the provider takes
    assert_eq!(name, "ивановиван");
    let resumed = checker.entity_resume(&e, true, purpose, &embedding(&[1000, 0, 0]));
    match resumed {
        EntityStep::Finished(o) => {
            let w = o.warning.expect("expected a warning");
            assert_eq!(w.name, "иванов иван");
            assert_eq!(w.docs.len(), 1);
            assert_eq!(w.docs[0].name, "иванов иван");
            assert_eq!(w.docs[0].distance, 0);
            assert_eq!(w.docs[0].similarity, SIM_SCALE);
            assert!(!w.docs[0].is_removed);
        }
        EntityStep::NeedEmbedding(_, _) => panic!("expected a finished entity"),
    }
}

#[test]
fn other_entities_are_accepted_unscored() {
    let checker = checker_with(vec![record("иванов", "sanctioned", &[1000], false)]);
    let e = entity("москва", "москва", "LOC");
    match checker.entity_begin(&e) {
        EntityStep::Finished(o) => {
            assert!(o.warning.is_none());
            let a = o.accepted.expect("expected an accepted entry");
            assert_eq!(a.name, "москва");
            assert!(a.docs.is_empty());
        }
        EntityStep::NeedEmbedding(_, _) => panic!("OTHER entities need no embedding"),
    }
}

#[test]
fn removed_records_never_come_back() {
    let checker = checker_with(vec![
        record("удаленный", "sanctioned", &[1000, 0, 0], true),
        record("живой", "sanctioned", &[0, 1000, 0], false),
    ]);
    // query right at the removed record's embedding
    let hits = checker.get_must_relevant(&embedding(&[1000, 0, 0]), 10, -SIM_SCALE);
    for h in &hits {
        assert_ne!(h.record.name, "удаленный");
        assert!(!h.record.is_removed);
    }
}

#[test]
fn nearest_record_is_found() {
    let r0 = record("первый", "sanctioned", &[1000, 0, 0], false);
    let r1 = record("второй", "sanctioned", &[0, 1000, 0], false);
    let r2 = record("третий", "sanctioned", &[0, 0, 1000], false);
    let checker = checker_with(vec![r0, r1, r2]);
    let hits = checker.get_must_relevant(&embedding(&[0, 1000, 0]), 1, 0);
    assert_eq!(hits.len(), 1);
    assert_eq!(hits[0].record.name, "второй");
    assert_eq!(hits[0].similarity, SIM_SCALE);
}

#[test]
fn replaced_empty_watchlist_yields_nothing() {
    let mut checker = checker_with(vec![
        record("иванов", "sanctioned", &[1000, 0, 0], false),
        record("петров", "sanctioned", &[0, 1000, 0], false),
    ]);
    checker.change_warning_names(Vec::new());
    let hits = checker.get_must_relevant(&embedding(&[1000, 0, 0]), 10, -SIM_SCALE);
    assert!(hits.is_empty());
    let e = entity("иванов", "иванов", "PER");
    assert!(checker.get_most_relevant_names(0, 100, &e, &embedding(&[1000, 0, 0])).is_none());
}

#[test]
fn added_records_become_searchable() {
    let mut checker = checker_with(vec![record("иванов", "sanctioned", &[1000, 0, 0], false)]);
    checker.add_warning_names(vec![record("петров", "foreign-agent", &[0, 1000, 0], false)]);
    let hits = checker.get_must_relevant(&embedding(&[0, 1000, 0]), 1, 0);
    assert_eq!(hits.len(), 1);
    assert_eq!(hits[0].record.name, "петров");
}

#[test]
fn substring_fallback_hits_unembeddable_names() {
    let checker = checker_with(vec![record("компания 百度 лимитед", "sanctioned", &[1000], false)]);
    // nothing of this name survives the character filter, so the substring
    // scan decides
    let e = entity("百度", "百度", "ORG");
    match checker.entity_begin(&e) {
        EntityStep::Finished(o) => {
            let w = o.warning.expect("expected a fallback warning");
            assert_eq!(w.docs.len(), 1);
            assert_eq!(w.docs[0].similarity, SIM_SCALE);
            assert_eq!(w.docs[0].distance, 0);
        }
        EntityStep::NeedEmbedding(_, _) => panic!("unembeddable name must not be embedded"),
    }
}

#[test]
fn latin_only_names_take_the_substring_fallback() {
    let checker = checker_with(vec![record("Apple Inc", "sanctioned", &[1000], false)]);
    // a Latin-only name strips to nothing embeddable, so the substring
    // scan decides
    let e = entity("apple", "apple", "ORG");
    match checker.entity_begin(&e) {
        EntityStep::Finished(o) => {
            let w = o.warning.expect("expected a fallback warning");
            assert_eq!(w.docs.len(), 1);
            assert_eq!(w.docs[0].name, "Apple Inc");
            assert_eq!(w.docs[0].distance, 0);
        }
        EntityStep::NeedEmbedding(_, _) => panic!("a Latin-only name must not be embedded"),
    }
}

#[test]
fn substring_fallback_misses_cleanly() {
    let checker = checker_with(vec![record("компания", "sanctioned", &[1000], false)]);
    let e = entity("百度", "百度", "ORG");
    match checker.entity_begin(&e) {
        EntityStep::Finished(o) => {
            assert!(o.warning.is_none());
            assert!(o.accepted.expect("accepted").docs.is_empty());
        }
        EntityStep::NeedEmbedding(_, _) => panic!("unembeddable name must not be embedded"),
    }
}

fn doc(status: &str, distance: usize) -> Doc {
    Doc {
        status: status.to_string(),
        name: format!("name-{distance}"),
        is_removed: false,
        similarity: SIM_SCALE,
        distance,
        debug_distances: Some(Distances { not_normal_dis: distance, normal_dis: distance, name_dis: None }),
    }
}

#[test]
fn dedup_keeps_the_lowest_distance_per_category() {
    let out = process_docs(vec![doc("sanctioned", 5), doc("sanctioned", 3)]);
    assert_eq!(out.len(), 1);
    assert_eq!(out[0].distance, 3);
    assert_eq!(out[0].status, "sanctioned");
}

#[test]
fn dedup_keeps_one_doc_per_category_in_first_seen_order() {
    let out = process_docs(vec![
        doc("a", 4),
        doc("b", 1),
        doc("a", 2),
        doc("b", 7),
    ]);
    assert_eq!(out.len(), 2);
    assert_eq!(out[0].status, "a");
    assert_eq!(out[0].distance, 2);
    assert_eq!(out[1].status, "b");
    assert_eq!(out[1].distance, 1);
}

#[test]
fn initials_fold_the_person_distance_in() {
    let checker = checker_with(vec![record("иванов иван", "sanctioned", &[1000, 0, 0], false)]);
    // a person given as initials: the period triggers the surname-and-
    // initials signal, which matches exactly
    let e = entity("и. иванов", "иванов", "PER");
    match checker.entity_resume(&e, false, ino_checker::new_checker::EmbedPurpose::Screen,
        &embedding(&[1000, 0, 0]))
    {
        EntityStep::Finished(o) => {
            let w = o.warning.expect("expected a warning");
            assert_eq!(w.docs.len(), 1);
            assert_eq!(w.docs[0].distance, 2);
            let dd = w.docs[0].debug_distances.clone().expect("diagnostics expected");
            // the registry surname is its last token: two edits plus two
            // unmatched tokens; the initials match
            assert_eq!(dd.name_dis, Some(6));
            assert_eq!(dd.normal_dis, 2);
            assert_eq!(dd.not_normal_dis, 7);
        }
        EntityStep::NeedEmbedding(_, _) => panic!("expected a finished entity"),
    }
}

#[test]
fn without_a_period_the_person_signal_stays_out() {
    let checker = checker_with(vec![record("иванов иван", "sanctioned", &[1000, 0, 0], false)]);
    let e = entity("иванов иван", "иванов иван", "PER");
    match checker.entity_resume(&e, false, ino_checker::new_checker::EmbedPurpose::Screen,
        &embedding(&[1000, 0, 0]))
    {
        EntityStep::Finished(o) => {
            let w = o.warning.expect("expected a warning");
            let dd = w.docs[0].debug_distances.clone().expect("diagnostics expected");
            assert_eq!(dd.name_dis, None);
        }
        EntityStep::NeedEmbedding(_, _) => panic!("expected a finished entity"),
    }
}

fn accepted_outcome(name: &str) -> EntityOutcome {
    let e = entity(name, name, "LOC");
    EntityOutcome { warning: None, accepted: Some(ino_checker::new_checker::empty_outcome(&e)) }
}

#[test]
fn collect_preserves_order_and_partitions() {
    let mut results: Vec<Result<EntityOutcome, ErrorS>> =
        vec![Ok(accepted_outcome("x")), Ok(accepted_outcome("y"))];
    let wn = match collect_outcomes(&mut results) {
        Ok(wn) => wn,
        Err(e) => panic!("no error expected: {}", e.error),
    };
    assert!(wn.warnings.is_empty());
    assert_eq!(wn.accepted_names.len(), 2);
    assert_eq!(wn.accepted_names[0].name, "x");
    assert_eq!(wn.accepted_names[1].name, "y");
}

#[test]
fn one_failed_entity_fails_the_whole_document() {
    let mut results: Vec<Result<EntityOutcome, ErrorS>> = vec![
        Ok(accepted_outcome("x")),
        Err(ErrorS { error: "embedding failed".to_string() }),
        Ok(accepted_outcome("y")),
    ];
    let err = match collect_outcomes(&mut results) {
        Ok(_) => panic!("expected the error to surface"),
        Err(e) => e,
    };
    assert_eq!(err.error, "embedding failed");
}
