use ann_rust::checks::{check_input, ValidationError};
use ann_rust::utils::{dot_product, find_close_vector, is_normalized};

/// Fixed-point rendering of a real coordinate.
fn s(x: f64) -> i64 {
    (x * 1_000_000.0).round() as i64
}

fn sv(xs: &[f64]) -> Vec<i64> {
    xs.iter().map(|&x| s(x)).collect()
}

/// One squared-scale unit: the fixed-point rendering of the real value 1
/// in dot-product units.
const SQ: i128 = 1_000_000_000_000;

#[test]
fn test_dot_product() {
    let vec1 = sv(&[1.0, 2.0, 3.0]);
    let vec2 = sv(&[4.0, 5.0, 6.0]);
    let result = dot_product(&vec1, &vec2);
    assert_eq!(result, 32 * SQ);

    let vec1 = sv(&[0.5, 0.5, 0.]);
    let vec2 = sv(&[0.5, 0.5, 0.]);
    let result = dot_product(&vec1, &vec2);
    assert_eq!(result, SQ / 2);
}

#[test]
fn test_is_normalized_tolerance() {
    assert!(is_normalized(&sv(&[1.0, 0.0, 0.0])));
    assert!(is_normalized(&sv(&[0.5, 0.5, 0.5, 0.5])));
    assert!(!is_normalized(&sv(&[2.0, 0.0, 0.0])));
    assert!(!is_normalized(&sv(&[0.0, 0.0, 0.0])));
    // squared norm exactly at the tolerance boundary: still accepted
    assert!(is_normalized(&vec![1_000_000, 1_000, 0]));
    // squared norm just beyond the tolerance: refused
    assert!(!is_normalized(&vec![1_000_000, 1_001, 0]));
}

#[test]
fn test_find_close_vector_first_match() {
    let query = sv(&[1.0, 0.0]);
    let vectors = vec![sv(&[0.0, 1.0]), sv(&[0.9, 0.1]), sv(&[1.0, 0.0])];
    // the first vector reaching beta wins, not the closest one
    let found = find_close_vector(&query, &vectors, s(0.5)).unwrap();
    assert_eq!(found, sv(&[0.9, 0.1]));
    assert_eq!(find_close_vector(&query, &vectors, s(0.95)), Some(sv(&[1.0, 0.0])));
    assert_eq!(find_close_vector(&query, &vectors, s(1.5)), None);
}

#[test]
fn test_check_input_ok() {
    let data = vec![sv(&[1.0, 0.0]), sv(&[0.0, 1.0])];
    assert_eq!(check_input(&data, s(0.9), s(0.8), s(0.5)), Ok(()));
}

#[test]
fn test_check_input_invalid_alpha() {
    let data = vec![sv(&[1.0, 0.0])];
    assert_eq!(check_input(&data, 0, s(0.8), s(0.5)), Err(ValidationError::InvalidAlpha));
    assert_eq!(
        check_input(&data, s(1.0), s(0.8), s(0.5)),
        Err(ValidationError::InvalidAlpha)
    );
}

#[test]
fn test_check_input_invalid_beta() {
    let data = vec![sv(&[1.0, 0.0])];
    assert_eq!(check_input(&data, s(0.9), s(0.9), s(0.5)), Err(ValidationError::InvalidBeta));
    assert_eq!(check_input(&data, s(0.9), 0, s(0.5)), Err(ValidationError::InvalidBeta));
}

#[test]
fn test_check_input_invalid_theta() {
    let data = vec![sv(&[1.0, 0.0])];
    assert_eq!(check_input(&data, s(0.9), s(0.8), 0), Err(ValidationError::InvalidTheta));
    assert_eq!(check_input(&data, s(0.9), s(0.8), -1), Err(ValidationError::InvalidTheta));
}

#[test]
fn test_check_input_empty_dataset() {
    let data: Vec<Vec<i64>> = Vec::new();
    assert_eq!(check_input(&data, s(0.9), s(0.8), s(0.5)), Err(ValidationError::EmptyDataset));
}

#[test]
fn test_check_input_zero_dimension() {
    let data: Vec<Vec<i64>> = vec![Vec::new()];
    assert_eq!(check_input(&data, s(0.9), s(0.8), s(0.5)), Err(ValidationError::ZeroDimension));
}

#[test]
fn test_check_input_dimension_mismatch() {
    let data = vec![sv(&[1.0, 0.0]), sv(&[1.0, 0.0, 0.0])];
    assert_eq!(
        check_input(&data, s(0.9), s(0.8), s(0.5)),
        Err(ValidationError::DimensionMismatch(1))
    );
}

#[test]
fn test_check_input_unnormalized_vector() {
    // the normalization invariant at construction: the faulty index and
    // its observed squared norm are reported
    let data = vec![sv(&[1.0, 0.0]), sv(&[2.0, 0.0])];
    assert_eq!(
        check_input(&data, s(0.9), s(0.8), s(0.5)),
        Err(ValidationError::UnnormalizedVector(1, 4 * SQ))
    );
}
