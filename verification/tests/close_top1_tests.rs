use ann_rust::close_top1::{get_hash_table, CloseTop1};
use ann_rust::utils::dot_product;
use rand_distr::{Distribution, Normal};

/// Fixed-point rendering of a real coordinate.
fn s(x: f64) -> i64 {
    (x * 1_000_000.0).round() as i64
}

fn sv(xs: &[f64]) -> Vec<i64> {
    xs.iter().map(|&x| s(x)).collect()
}

const SCALE: i128 = 1_000_000;

fn get_threshold(alpha: f64, m: usize) -> f64 {
    let ln_m = (m as f64).ln();
    let ln_ln_m = ln_m.ln();
    alpha * (2. * ln_m).sqrt() - (2. * (1. - alpha.powi(2)) * ln_ln_m).sqrt()
}

/// The corridor bounds derived from the number of directions.
fn corridor_bounds(m: usize) -> (f64, f64) {
    let ln_m = (m as f64).ln();
    let right = (2. * ln_m).sqrt();
    let left = right - (3. / 2.) * (ln_m.ln() / right);
    (left, right)
}

fn direction_count(n: usize, alpha: f64, theta: f64) -> usize {
    (n as f64).powf(theta / (1. - alpha.powi(2))).ceil() as usize
}

fn gaussian_directions(m: usize, d: usize) -> Vec<Vec<i64>> {
    let normal = Normal::new(0.0f64, 1.0).unwrap();
    let mut rng = rand::rng();
    (0..m).map(|_| (0..d).map(|_| s(normal.sample(&mut rng))).collect()).collect()
}

#[test]
fn test_close_top1_query() {
    let data = vec![sv(&[1.0, 0.0, 0.0]), sv(&[0.0, 1.0, 0.0]), sv(&[0.0, 0.0, 1.0])];
    let alpha = 0.9;
    let beta = 0.8;
    let theta = 0.5;
    let m = direction_count(data.len(), alpha, theta);
    let directions = gaussian_directions(m, 3);
    let threshold = s(get_threshold(alpha, m));
    let (left, right) = corridor_bounds(m);
    let top1 = CloseTop1::new(
        &data,
        directions,
        s(alpha),
        s(beta),
        s(theta),
        threshold,
        s(left),
        s(right),
    )
    .unwrap();

    // Good query
    let query = sv(&[1.0, 0.0, 0.0]);
    let result = top1.query(&query);
    // if the threshold is higher than all the dot products, the result must be None
    let mut flag: bool = true;
    for vector in top1.gaussian_vectors.iter() {
        let dot = dot_product(&query, vector);
        if dot >= (top1.threshold as i128) * SCALE {
            println!("Dot product: {}", dot);
            flag = false;
            break;
        }
    }
    if flag {
        assert_eq!(result.unwrap(), None);
    } else {
        // under the corridor policy a candidate bucket may hold nothing
        // close; a found vector must meet beta
        match result.unwrap() {
            Some(close) => {
                assert!(dot_product(&query, &close) >= (top1.beta as i128) * SCALE);
            }
            None => {}
        }
    }

    // Bad query
    let query = sv(&[2.0, 0.0, 0.0]);
    let result = top1.query(&query);
    assert!(result.is_err());
}

#[test]
fn test_close_top_1_get_hash_table() {
    let data = vec![
        sv(&[1.0, 0.0, 0.0]),
        sv(&[1.0, 0.0, 0.0]),
        sv(&[0.0, 1.0, 0.0]),
        sv(&[0.0, 0.0, 1.0]),
    ];
    let gaussian_vectors = vec![sv(&[1.0, 0.0, 0.0]), sv(&[0.0, 1.0, 0.0]), sv(&[0.0, 0.0, 1.0])];
    let (left, right) = corridor_bounds(gaussian_vectors.len());
    let hash_table = get_hash_table(&data, &gaussian_vectors, s(left), s(right));

    // Count how many vectors are in the hash table
    let mut count_hash = 0;
    for i in 0..hash_table.len() {
        count_hash += hash_table.bucket_at(i).len();
    }

    // Compute how many data vectors pass the corridor filter
    let left_s = (s(left) as i128) * SCALE;
    let right_s = (s(right) as i128) * SCALE;
    let mut count_data = 0;
    let mut data_index: Vec<usize> = Vec::new();
    for (i, data_vector) in data.iter().enumerate() {
        for gaussian_vector in gaussian_vectors.iter() {
            let dot = dot_product(data_vector, gaussian_vector);
            if dot >= left_s && dot <= right_s {
                count_data += 1;
                data_index.push(i);
                break;
            }
        }
    }
    assert_eq!(count_hash, count_data);

    // Every data vector that passed the filter is in the hash table
    for i in data_index.iter() {
        let mut flag = false;
        for b in 0..hash_table.len() {
            for vector in hash_table.bucket_at(b).iter() {
                if data[*i] == *vector {
                    flag = true;
                    break;
                }
            }
        }
        assert!(flag);
    }
}

#[test]
fn test_corridor_filter_assignments() {
    // a corridor around 1: each axis vector is admitted by its own axis
    // direction, the off-axis vector by none
    let data = vec![
        sv(&[1.0, 0.0, 0.0]),
        sv(&[1.0, 0.0, 0.0]),
        sv(&[0.0, 1.0, 0.0]),
        sv(&[0.0, 0.0, 1.0]),
        sv(&[0.6, 0.8, 0.0]),
    ];
    let gaussian_vectors = vec![sv(&[1.0, 0.0, 0.0]), sv(&[0.0, 1.0, 0.0]), sv(&[0.0, 0.0, 1.0])];
    let hash_table = get_hash_table(&data, &gaussian_vectors, s(0.9), s(1.1));

    let mut count_hash = 0;
    for i in 0..hash_table.len() {
        count_hash += hash_table.bucket_at(i).len();
    }
    // the off-axis vector is absent from the table altogether
    assert_eq!(count_hash, 4);
    assert_eq!(hash_table.len(), 3);
    assert_eq!(hash_table.get(&vec![0]).unwrap().len(), 2);
    assert_eq!(hash_table.get(&vec![0]).unwrap()[0], sv(&[1.0, 0.0, 0.0]));
    assert_eq!(hash_table.get(&vec![0]).unwrap()[1], sv(&[1.0, 0.0, 0.0]));
    assert_eq!(hash_table.get(&vec![1]).unwrap()[0], sv(&[0.0, 1.0, 0.0]));
    assert_eq!(hash_table.get(&vec![2]).unwrap()[0], sv(&[0.0, 0.0, 1.0]));
}
