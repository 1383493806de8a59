//! Token-set distance behavior: case folding, the asymmetry, the distance
//! to self, disjoint token sets, and the byte-length fallback for an empty
//! other side.

use ino_checker::checker_utils;
use ino_checker::funcs;

#[test]
fn distance_to_self_is_zero() {
    assert_eq!(funcs::unordered_levenshtein("Иванов Иван Иванович", "Иванов Иван Иванович"), 0);
    assert_eq!(funcs::unordered_levenshtein("", ""), 0);
    assert_eq!(funcs::unordered_levenshtein("  a   b ", "a b"), 0);
}

#[test]
fn case_is_folded() {
    assert_eq!(funcs::unordered_levenshtein("Иванов Иван", "иванов иван"), 0);
    assert_eq!(funcs::unordered_levenshtein("ABC", "abc"), 0);
}

#[test]
fn plain_variant_does_not_fold_case() {
    // one substitution plus two unmatched tokens at weight two
    assert_eq!(checker_utils::unordered_levenshtein("Иванов", "иванов"), 5);
    assert_eq!(checker_utils::unordered_levenshtein("иванов", "иванов"), 0);
}

#[test]
fn distance_is_asymmetric() {
    // tokens {аб, вг} against {аб}: edit sum 0 + 2, unmatched 1 each way
    let d1 = funcs::unordered_levenshtein("аб вг", "аб");
    let d2 = funcs::unordered_levenshtein("аб", "аб вг");
    assert_eq!(d1, 4);
    assert_eq!(d2, 2);
    assert_ne!(d1, d2);
}

#[test]
fn empty_other_side_counts_bytes() {
    // the lone token has no candidate: its UTF-8 byte length is charged,
    // plus two for the unmatched token
    assert_eq!(funcs::unordered_levenshtein("иванов", ""), 14);
    assert_eq!(funcs::unordered_levenshtein("abc", ""), 5);
}

#[test]
fn disjoint_tokens_cost_at_least_two_each() {
    // 2 + 2 distinct tokens, all unmatched: at least 2 * 4
    let d = funcs::unordered_levenshtein("аа бб", "вв гг");
    assert!(d >= 8);
}

#[test]
fn duplicate_tokens_collapse() {
    assert_eq!(funcs::unordered_levenshtein("а а а", "а"), 0);
}
