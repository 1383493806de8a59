//! Reading embedding-provider responses.

use ino_checker::embedding::{extract_embedding, Response};

#[test]
fn a_vector_without_error_is_ok() {
    let r = extract_embedding(Response { embedding: Some(vec![1, 2]), error: None });
    assert_eq!(r.unwrap(), vec![1, 2]);
}

#[test]
fn an_in_band_error_wins_over_a_present_vector() {
    let r = extract_embedding(Response {
        embedding: Some(vec![1, 2]),
        error: Some("quota".to_string()),
    });
    assert_eq!(r.err().unwrap(), "quota");
}

#[test]
fn neither_field_is_an_unknown_error() {
    let r = extract_embedding(Response { embedding: None, error: None });
    assert_eq!(r.err().unwrap(), "Unknown embedding error");
}
