//! The ANN index with its positional record list.

use ino_checker::ann::ANNIndex;
use ino_checker::db::Record;

fn record(name: &str, embedding: Vec<i64>, removed: bool) -> Record {
    Record {
        name: name.to_string(),
        record_type: "sanctioned".to_string(),
        embedding,
        is_removed: removed,
    }
}

#[test]
fn the_nearest_neighbor_comes_back_first() {
    let mut index = ANNIndex::new("test", 4);
    index.add(record("a", vec![1000, 0, 0, 0], false));
    index.add(record("b", vec![0, 1000, 0, 0], false));
    index.add(record("c", vec![0, 0, 1000, 0], false));
    assert_eq!(index.len(), 3);

    let hits = index.search(&vec![0, 1000, 0, 0], 1);
    assert_eq!(hits.len(), 1);
    assert_eq!(hits[0].name, "b");
}

#[test]
fn removed_records_are_filtered_from_every_result() {
    let mut index = ANNIndex::new("test", 4);
    index.add(record("gone", vec![1000, 0, 0, 0], true));
    index.add(record("kept", vec![900, 100, 0, 0], false));

    let hits = index.search(&vec![1000, 0, 0, 0], 10);
    assert!(!hits.is_empty());
    for h in &hits {
        assert_ne!(h.name, "gone");
        assert!(!h.is_removed);
    }
}

#[test]
fn an_empty_index_returns_nothing() {
    let index = ANNIndex::new("test", 4);
    assert!(index.search(&vec![1, 2, 3, 4], 5).is_empty());
}
