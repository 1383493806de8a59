//! Scaled cosine similarity: the self-similarity law, the mismatch
//! sentinel, orthogonality, opposition, and scale invariance.

use ino_checker::funcs::{cosine_similarity, SIM_SCALE};

#[test]
fn self_similarity_is_full_scale() {
    let v: Vec<i64> = vec![1, 2, 3];
    assert_eq!(cosine_similarity(&v, &v), SIM_SCALE);
}

#[test]
fn mismatched_lengths_get_the_sentinel() {
    assert_eq!(cosine_similarity(&[1, 2], &[1, 2, 3]), -SIM_SCALE);
    assert_eq!(cosine_similarity(&[], &[]), -SIM_SCALE);
}

#[test]
fn zero_vectors_get_the_sentinel() {
    assert_eq!(cosine_similarity(&[0, 0], &[1, 2]), -SIM_SCALE);
}

#[test]
fn orthogonal_vectors_have_zero_similarity() {
    assert_eq!(cosine_similarity(&[1, 0], &[0, 1]), 0);
}

#[test]
fn opposite_vectors_have_negative_full_scale() {
    assert_eq!(cosine_similarity(&[1, 0], &[-1, 0]), -SIM_SCALE);
}

#[test]
fn similarity_is_scale_invariant() {
    let v: Vec<i64> = vec![3, 4, 5];
    let w: Vec<i64> = vec![6, 8, 10];
    assert_eq!(cosine_similarity(&v, &w), SIM_SCALE);
}

#[test]
fn similarity_of_close_vectors_is_high() {
    let s = cosine_similarity(&[1000, 0], &[1000, 10]);
    assert!(s > 990_000 && s < SIM_SCALE);
}
