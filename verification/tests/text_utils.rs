//! Character filtering, markup stripping, and the scan pipeline steps.

use ino_checker::checker::{scan_entity_begin, scan_entity_resume, get_most_relevant_names};
use ino_checker::db::Record;
use ino_checker::funcs::keep_russian_and_dot;
use ino_checker::ner::Entity;
use ino_checker::new_checker::{EmbedPurpose, EntityStep};
use ino_checker::rv::strip_html;

#[test]
fn keep_russian_and_dot_filters() {
    assert_eq!(keep_russian_and_dot("Иванов И.И."), "ИвановИ.И.");
    // only Cyrillic letters and periods survive: a Latin-only name keeps
    // nothing embeddable but its punctuation
    assert_eq!(keep_russian_and_dot("AT&T Corp."), ".");
    assert_eq!(keep_russian_and_dot("Apple"), "");
    assert_eq!(keep_russian_and_dot("123 !? 百度"), "");
    assert_eq!(keep_russian_and_dot("Ёё"), "Ёё");
}

#[test]
fn strip_html_removes_closed_tags() {
    assert_eq!(strip_html("<p>Привет</p> мир".to_string()), "Привет мир");
    assert_eq!(strip_html("a<b attr=\"x\">c".to_string()), "ac");
    assert_eq!(strip_html("no tags".to_string()), "no tags");
}

#[test]
fn strip_html_keeps_unclosed_brackets() {
    assert_eq!(strip_html("a < b".to_string()), "a < b");
    assert_eq!(strip_html("5 > 3".to_string()), "5 > 3");
}

fn embedding(seed: &[i64]) -> Vec<i64> {
    let mut v = vec![0i64; 8];
    for (i, &x) in seed.iter().enumerate() {
        v[i] = x;
    }
    v
}

fn record(name: &str, status: &str, seed: &[i64]) -> Record {
    Record {
        name: name.to_string(),
        record_type: status.to_string(),
        embedding: embedding(seed),
        is_removed: false,
    }
}

#[test]
fn scan_pipeline_matches_exactly() {
    let agents = vec![
        record("иванов иван", "sanctioned", &[1000, 0]),
        record("петров петр", "sanctioned", &[0, 1000]),
    ];
    let e = Entity {
        name: "иванов иван".to_string(),
        norm_name: "иванов иван".to_string(),
        entity_type: "PER".to_string(),
        context: "ctx".to_string(),
    };
    let step = scan_entity_begin(&e);
    let purpose = match step {
        EntityStep::NeedEmbedding(name, p) => {
            // the scan pipeline embeds the raw name
            assert_eq!(name, "иванов иван");
            p
        }
        EntityStep::Finished(_) => panic!("expected an embedding request"),
    };
    match scan_entity_resume(&e, false, purpose, &agents, &embedding(&[1000, 0])) {
        EntityStep::Finished(o) => {
            let w = o.warning.expect("expected a warning");
            assert_eq!(w.docs.len(), 1);
            assert_eq!(w.docs[0].name, "иванов иван");
            assert_eq!(w.docs[0].distance, 0);
        }
        EntityStep::NeedEmbedding(_, _) => panic!("expected a finished entity"),
    }
}

#[test]
fn scan_audit_miss_drops_the_entity() {
    let agents: Vec<Record> = Vec::new();
    let e = Entity {
        name: "иванов".to_string(),
        norm_name: "иванов".to_string(),
        entity_type: "PER".to_string(),
        context: "ctx".to_string(),
    };
    match scan_entity_resume(&e, true, EmbedPurpose::Audit, &agents, &embedding(&[1000])) {
        EntityStep::Finished(o) => {
            assert!(o.warning.is_none());
            assert!(o.accepted.is_none());
        }
        EntityStep::NeedEmbedding(_, _) => panic!("the audit pass always finishes"),
    }
}

#[test]
fn scan_audit_hit_becomes_a_diagnostic_accepted_entry() {
    let agents = vec![record("иванов иван", "sanctioned", &[1000, 0])];
    let e = Entity {
        name: "иванов иван".to_string(),
        norm_name: "иванов иван".to_string(),
        entity_type: "PER".to_string(),
        context: "ctx".to_string(),
    };
    match scan_entity_resume(&e, true, EmbedPurpose::Audit, &agents, &embedding(&[1000, 0])) {
        EntityStep::Finished(o) => {
            assert!(o.warning.is_none());
            let a = o.accepted.expect("expected a diagnostic entry");
            assert_eq!(a.docs.len(), 1);
            assert_eq!(a.docs[0].distance, 0);
        }
        EntityStep::NeedEmbedding(_, _) => panic!("the audit pass always finishes"),
    }
}

#[test]
fn scan_classification_respects_the_distance_bound() {
    let agents = vec![record("совсем другое имя тут", "sanctioned", &[1000, 0])];
    let e = Entity {
        name: "не похожее".to_string(),
        norm_name: "не похожее".to_string(),
        entity_type: "ORG".to_string(),
        context: "ctx".to_string(),
    };
    // the embedding matches, the names do not: the fused distance is far
    // over the bound
    let r = get_most_relevant_names(0, 1, &e, &agents, &embedding(&[1000, 0]));
    assert!(r.is_none());
}
