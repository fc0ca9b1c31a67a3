use ann_rust::tensor_top1::{cartesian_product, TensorTop1};
use ann_rust::utils::dot_product;

/// Fixed-point rendering of a real coordinate.
fn s(x: f64) -> i64 {
    (x * 1_000_000.0).round() as i64
}

fn sv(xs: &[f64]) -> Vec<i64> {
    xs.iter().map(|&x| s(x)).collect()
}

const SCALE: i128 = 1_000_000;

fn get_threshold(alpha: f64, m: usize) -> f64 {
    let ln_m = (m as f64).ln();
    let ln_ln_m = ln_m.ln();
    alpha * (2. * ln_m).sqrt() - (2. * (1. - alpha.powi(2)) * ln_ln_m).sqrt()
}

#[test]
fn test_cartesian_product() {
    // labels stand for the per-substructure bucket indices; the tuples
    // keep the prefix-major order of the product
    let vec1 = vec![0u64, 1];
    let vec2 = vec![2u64, 3];
    let collection = vec![vec1, vec2];
    let result = cartesian_product(&collection);
    assert_eq!(result, vec![vec![0u64, 2], vec![0, 3], vec![1, 2], vec![1, 3]]);

    let vec1 = vec![0u64, 1, 2];
    let vec2 = vec![2u64];
    let collection = vec![vec1, vec2];
    let result = cartesian_product(&collection);
    assert_eq!(result, vec![vec![0u64, 2], vec![1, 2], vec![2, 2]]);

    let vec1 = vec![0u64];
    let collection = vec![vec1];
    let result = cartesian_product(&collection);
    assert_eq!(result, vec![vec![0u64]]);

    let vec1 = vec![0u64, 1];
    let vec2 = Vec::<u64>::new();
    let vec3 = vec![2u64];
    let collection = vec![vec1, vec2, vec3];
    let result = cartesian_product(&collection);
    assert_eq!(result, Vec::<Vec<u64>>::new());

    let vec1 = vec![0u64, 1];
    let vec2 = vec![2u64];
    let vec3 = vec![3u64];
    let collection = vec![vec1, vec2, vec3];
    let result = cartesian_product(&collection);
    assert_eq!(result, vec![vec![0u64, 2, 3], vec![1, 2, 3]]);
}

fn axis_data() -> Vec<Vec<i64>> {
    vec![sv(&[1.0, 0.0, 0.0]), sv(&[0.0, 1.0, 0.0]), sv(&[0.0, 0.0, 1.0])]
}

fn axis_directions() -> Vec<Vec<i64>> {
    vec![sv(&[3.0, 0.0, 0.0]), sv(&[0.0, 3.0, 0.0]), sv(&[0.0, 0.0, 3.0])]
}

#[test]
fn test_tensor_query_found() {
    let data = axis_data();
    let direction_sets = vec![axis_directions(), axis_directions()];
    let threshold = s(get_threshold(0.9, 3));
    let tensor =
        TensorTop1::new(&data, direction_sets, s(0.9), s(0.8), s(0.5), threshold).unwrap();

    let query = sv(&[1.0, 0.0, 0.0]);
    let result = tensor.query(&query).unwrap();
    let close = result.expect("a close vector must be found");
    assert_eq!(close, sv(&[1.0, 0.0, 0.0]));
    assert!(dot_product(&query, &close) >= (s(0.8) as i128) * SCALE);
}

#[test]
fn test_tensor_emptiness_short_circuit() {
    // a threshold no direction can reach: every substructure yields an
    // empty candidate set, and the query is NotFound at once
    let data = axis_data();
    let direction_sets = vec![axis_directions(), axis_directions()];
    let tensor =
        TensorTop1::new(&data, direction_sets, s(0.9), s(0.8), s(0.5), s(10.0)).unwrap();

    let query = sv(&[1.0, 0.0, 0.0]);
    assert_eq!(tensor.query(&query).unwrap(), None);
}

#[test]
fn test_tensor_invalid_query() {
    let data = axis_data();
    let direction_sets = vec![axis_directions(), axis_directions()];
    let threshold = s(get_threshold(0.9, 3));
    let tensor =
        TensorTop1::new(&data, direction_sets, s(0.9), s(0.8), s(0.5), threshold).unwrap();

    let query = sv(&[2.0, 0.0, 0.0]);
    assert!(tensor.query(&query).is_err());
}

#[test]
fn test_tensor_query_idempotent() {
    let data = axis_data();
    let direction_sets = vec![axis_directions(), axis_directions()];
    let threshold = s(get_threshold(0.9, 3));
    let tensor =
        TensorTop1::new(&data, direction_sets, s(0.9), s(0.8), s(0.5), threshold).unwrap();

    let query = sv(&[0.0, 1.0, 0.0]);
    let first = tensor.query(&query);
    let second = tensor.query(&query);
    assert_eq!(first, second);
}

#[test]
fn test_tensor_rejects_invalid_data() {
    let data = vec![sv(&[2.0, 0.0, 0.0])];
    let direction_sets = vec![axis_directions()];
    let threshold = s(get_threshold(0.9, 3));
    let result = TensorTop1::new(&data, direction_sets, s(0.9), s(0.8), s(0.5), threshold);
    assert!(result.is_err());
}
