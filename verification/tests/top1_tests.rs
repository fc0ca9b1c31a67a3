use ann_rust::query::search;
use ann_rust::top1::{get_hash_table, get_match_list, get_match_list_parallel, Top1};
use ann_rust::utils::dot_product;
use rand_distr::{Distribution, Normal};

/// Fixed-point rendering of a real coordinate.
fn s(x: f64) -> i64 {
    (x * 1_000_000.0).round() as i64
}

fn sv(xs: &[f64]) -> Vec<i64> {
    xs.iter().map(|&x| s(x)).collect()
}

const SCALE: i128 = 1_000_000;

/// The derived search threshold, computed in floating point by the
/// caller and handed to the library in fixed point.
fn get_threshold(alpha: f64, m: usize) -> f64 {
    let ln_m = (m as f64).ln();
    let ln_ln_m = ln_m.ln();
    alpha * (2. * ln_m).sqrt() - (2. * (1. - alpha.powi(2)) * ln_ln_m).sqrt()
}

/// The number of directions the construction formula asks for.
fn direction_count(n: usize, alpha: f64, theta: f64) -> usize {
    (n as f64).powf(theta / (1. - alpha.powi(2))).ceil() as usize
}

fn gaussian_directions(m: usize, d: usize) -> Vec<Vec<i64>> {
    let normal = Normal::new(0.0f64, 1.0).unwrap();
    let mut rng = rand::rng();
    (0..m).map(|_| (0..d).map(|_| s(normal.sample(&mut rng))).collect()).collect()
}

#[test]
fn test_match_list() {
    let data = vec![sv(&[1.0, 0., 0.]), sv(&[0., 1.0, 0.])];
    let gaussian_vectors = vec![sv(&[1.0, 0., 0.]), sv(&[0.5, 0.5, 0.])];
    let match_list = get_match_list(&data, &gaussian_vectors);
    assert_eq!(match_list, vec![0, 1]);
}

#[test]
fn test_match_list_parallel() {
    let data = vec![sv(&[1.0, 0., 0.]), sv(&[0., 1.0, 0.])];
    let gaussian_vectors = vec![sv(&[1.0, 0., 0.]), sv(&[0.5, 0.5, 0.])];
    let match_list = get_match_list_parallel(&data, &gaussian_vectors);
    assert_eq!(match_list, vec![0, 1]);

    // the parallel assignment agrees with the sequential one
    let data = gaussian_directions(40, 5);
    let dirs = gaussian_directions(7, 5);
    assert_eq!(get_match_list_parallel(&data, &dirs), get_match_list(&data, &dirs));
}

#[test]
fn top1_test_search() {
    let gaussian_vectors = vec![sv(&[1.0, 2.0, 3.0]), sv(&[4.0, 5.0, 6.0])];
    let query = sv(&[1.0, 2.0, 3.0]);
    let threshold = s(20.0);
    let result = search(&gaussian_vectors, &query, threshold);
    assert_eq!(result, vec![1]);

    let gaussian_vectors = vec![sv(&[1.0, 0., 0.]), sv(&[0., 1.0, 0.])];
    let query = sv(&[1.0, 0.5, 0.]);
    let threshold = s(0.5);
    let result = search(&gaussian_vectors, &query, threshold);
    assert_eq!(result, vec![0, 1]);

    let gaussian_vectors = vec![sv(&[1.0, 0., 0.]), sv(&[0., 1.0, 0.])];
    let query = sv(&[1.0, 0.5, 0.]);
    let threshold = s(2.0);
    let result = search(&gaussian_vectors, &query, threshold);
    assert_eq!(result, Vec::<u64>::new());
}

#[test]
fn query_test_search() {
    let alpha = 0.9;
    let n = 100;
    let gaussian_vectors = gaussian_directions(n, 3);
    let threshold = s(get_threshold(alpha, n));

    let query = sv(&[1.0, 2.0, 3.0]);
    let indices = search(&gaussian_vectors, &query, threshold);

    // Get all direction indices that meet the threshold
    let matched_gaussian_indices: Vec<u64> = gaussian_vectors
        .iter()
        .enumerate()
        .filter(|(_, gaussian_vector)| {
            dot_product(&query, gaussian_vector) >= (threshold as i128) * SCALE
        })
        .map(|(i, _)| i as u64)
        .collect();

    assert_eq!(indices, matched_gaussian_indices);
}

#[test]
fn top1_test_top1_query() {
    let data = vec![sv(&[1.0, 0.0, 0.0]), sv(&[0.0, 1.0, 0.0]), sv(&[0.0, 0.0, 1.0])];
    let alpha = 0.9;
    let beta = 0.8;
    let theta = 0.5;
    let m = direction_count(data.len(), alpha, theta);
    let directions = gaussian_directions(m, 3);
    let threshold = s(get_threshold(alpha, m));
    let top1 =
        Top1::new(&data, directions, s(alpha), s(beta), s(theta), threshold).unwrap();

    // Good query
    let query = sv(&[1.0, 0.0, 0.0]);
    let result = top1.query(&query);
    // if the threshold is higher than all the dot products, the result must be None
    let mut flag: bool = true;
    for vector in top1.gaussian_vectors.iter() {
        let dot = dot_product(&query, vector);
        if dot >= (top1.threshold as i128) * SCALE {
            println!("Dot product: {}", dot);
            flag = false;
            break;
        }
    }
    if flag {
        assert_eq!(result.unwrap(), None);
    } else {
        // the query's own arg-max bucket holds the query vector itself,
        // so some candidate bucket must yield a close vector
        let close = result.unwrap().expect("a close vector must be found");
        assert!(dot_product(&query, &close) >= (top1.beta as i128) * SCALE);
    }

    // Bad query
    let query = sv(&[2.0, 0.0, 0.0]);
    let result = top1.query(&query);
    assert!(result.is_err());
}

#[test]
fn top_1_test_top1_query() {
    let data = vec![sv(&[1.0, 0.0, 0.0]), sv(&[0.0, 1.0, 0.0]), sv(&[0.0, 0.0, 1.0])];
    let alpha = 0.9;
    let beta = 0.8;
    let theta = 0.5;
    // a direction set under which the first data vector is certain to be
    // found: its own axis, strongly scaled
    let directions = vec![sv(&[3.0, 0.0, 0.0]), sv(&[0.0, 3.0, 0.0]), sv(&[0.0, 0.0, 3.0])];
    let threshold = s(get_threshold(alpha, directions.len()));
    let top1 =
        Top1::new(&data, directions, s(alpha), s(beta), s(theta), threshold).unwrap();

    // Good query: the stored vector itself comes back
    let query = sv(&[1.0, 0.0, 0.0]);
    let result = top1.query(&query).unwrap();
    let close = result.expect("a close vector must be found");
    assert!(dot_product(&query, &close) >= (s(beta) as i128) * SCALE);

    // Bad query: refused as unnormalized
    let query = sv(&[2.0, 0.0, 0.0]);
    let result = top1.query(&query);
    assert!(result.is_err());
}

#[test]
fn top1_test_get_hash_table() {
    let data = vec![
        sv(&[1.0, 0.0, 0.0]),
        sv(&[1.0, 0.0, 0.0]),
        sv(&[0.0, 1.0, 0.0]),
        sv(&[0.0, 0.0, 1.0]),
    ];
    let gaussian_vectors = vec![sv(&[1.0, 0.0, 0.0]), sv(&[0.0, 1.0, 0.0]), sv(&[0.0, 0.0, 1.0])];
    let hash_table = get_hash_table(&data, &gaussian_vectors);

    assert_eq!(hash_table.len(), 3);
    assert_eq!(hash_table.get(&vec![0]).unwrap().len(), 2);
    assert_eq!(hash_table.get(&vec![1]).unwrap().len(), 1);
    assert_eq!(hash_table.get(&vec![2]).unwrap().len(), 1);
    assert_eq!(hash_table.get(&vec![0]).unwrap()[0], sv(&[1.0, 0.0, 0.0]));
    assert_eq!(hash_table.get(&vec![0]).unwrap()[1], sv(&[1.0, 0.0, 0.0]));
    assert_eq!(hash_table.get(&vec![1]).unwrap()[0], sv(&[0.0, 1.0, 0.0]));
    assert_eq!(hash_table.get(&vec![2]).unwrap()[0], sv(&[0.0, 0.0, 1.0]));
}

#[test]
fn top_1_test_get_hash_table() {
    let data = vec![
        sv(&[1.0, 0.0, 0.0]),
        sv(&[1.0, 0.0, 0.0]),
        sv(&[0.0, 1.0, 0.0]),
        sv(&[0.0, 0.0, 1.0]),
    ];
    let gaussian_vectors = vec![sv(&[1.0, 0.0, 0.0]), sv(&[0.0, 1.0, 0.0]), sv(&[0.0, 0.0, 1.0])];
    let hash_table = get_hash_table(&data, &gaussian_vectors);

    assert_eq!(hash_table.len(), 3);
    assert_eq!(hash_table.get(&vec![0]).unwrap().len(), 2);
    assert_eq!(hash_table.get(&vec![1]).unwrap().len(), 1);
    assert_eq!(hash_table.get(&vec![2]).unwrap().len(), 1);
    assert_eq!(hash_table.get(&vec![0]).unwrap()[0], sv(&[1.0, 0.0, 0.0]));
    assert_eq!(hash_table.get(&vec![0]).unwrap()[1], sv(&[1.0, 0.0, 0.0]));
    assert_eq!(hash_table.get(&vec![1]).unwrap()[0], sv(&[0.0, 1.0, 0.0]));
    assert_eq!(hash_table.get(&vec![2]).unwrap()[0], sv(&[0.0, 0.0, 1.0]));
}

#[test]
fn top_1_test_search() {
    let data = vec![sv(&[1.0, 0.0, 0.0]), sv(&[0.0, 1.0, 0.0]), sv(&[0.0, 0.0, 1.0])];
    let alpha = 0.9;
    let beta = 0.8;
    let theta = 0.5;
    let m = direction_count(data.len(), alpha, theta);
    let directions = gaussian_directions(m, 3);
    let threshold = s(get_threshold(alpha, m));
    let top1 =
        Top1::new(&data, directions, s(alpha), s(beta), s(theta), threshold).unwrap();

    let query = sv(&[1.0, 2.0, 3.0]);
    let indices = top1.search(&query);

    let matched_gaussian_indices: Vec<u64> = top1
        .gaussian_vectors
        .iter()
        .enumerate()
        .filter(|(_, gaussian_vector)| {
            dot_product(&query, gaussian_vector) >= (top1.threshold as i128) * SCALE
        })
        .map(|(i, _)| i as u64)
        .collect();

    assert_eq!(indices, matched_gaussian_indices);
}

#[test]
fn test_query_soundness() {
    let data = vec![sv(&[1.0, 0.0, 0.0]), sv(&[0.0, 1.0, 0.0]), sv(&[0.0, 0.0, 1.0])];
    let alpha = 0.9;
    let beta = 0.8;
    let theta = 0.5;
    let m = direction_count(data.len(), alpha, theta);
    let directions = gaussian_directions(m, 3);
    let threshold = s(get_threshold(alpha, m));
    let top1 =
        Top1::new(&data, directions, s(alpha), s(beta), s(theta), threshold).unwrap();

    // querying a stored vector either finds nothing or finds a vector
    // whose similarity reaches beta
    let query = sv(&[1.0, 0.0, 0.0]);
    match top1.query(&query).unwrap() {
        Some(v) => assert!(dot_product(&query, &v) >= (s(beta) as i128) * SCALE),
        None => {}
    }

    // an unnormalized query is an error, never a silent answer
    let query = sv(&[2.0, 0.0, 0.0]);
    assert!(top1.query(&query).is_err());
}

#[test]
fn test_query_idempotent() {
    let data = vec![sv(&[1.0, 0.0, 0.0]), sv(&[0.0, 1.0, 0.0]), sv(&[0.0, 0.0, 1.0])];
    let directions = vec![sv(&[3.0, 0.0, 0.0]), sv(&[0.0, 3.0, 0.0]), sv(&[0.0, 0.0, 3.0])];
    let threshold = s(get_threshold(0.9, 3));
    let top1 = Top1::new(&data, directions, s(0.9), s(0.8), s(0.5), threshold).unwrap();

    let query = sv(&[1.0, 0.0, 0.0]);
    let first = top1.query(&query);
    let second = top1.query(&query);
    assert_eq!(first, second);
    let third = top1.query(&query);
    assert_eq!(first, third);
}
