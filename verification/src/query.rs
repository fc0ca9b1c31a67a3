//! Threshold-gated candidate search and bucket probing, shared by the
//! argmax index, the corridor index and the tensor index.
//!
//! A query first passes the normalization gate, then collects every
//! direction whose dot product reaches the threshold, and finally scans
//! the candidate buckets in order for the first stored vector whose dot
//! product with the query reaches `beta`.

use crate::bucket_table::{table_dims, BucketTable};
use crate::utils::{
    all_dim_bounded, bounded, dot, dot_product, find_close_vector, first_close, is_normalized,
    is_unit, views, MAX_COORD, SCALE,
};
use vstd::prelude::*;

verus! {

/// The error a query can return.
#[derive(Clone, Copy, Debug, PartialEq, Eq, Structural)]
pub enum QueryError {
    /// The query vector is not unit-normalized.
    InvalidQuery,
}

/// The candidate labels among the first `k` directions: every index whose
/// dot product with `q` reaches `tau`, in ascending order.
pub open spec fn qualifying_upto(dirs: Seq<Seq<i64>>, q: Seq<i64>, tau: int, k: int) -> Seq<u64>
    decreases k,
{
    if k <= 0 {
        Seq::empty()
    } else {
        let rest = qualifying_upto(dirs, q, tau, k - 1);
        if dot(q, dirs[k - 1]) >= tau * SCALE {
            rest.push((k - 1) as u64)
        } else {
            rest
        }
    }
}

/// The candidate labels of `q` against the whole direction set.
pub open spec fn qualifying(dirs: Seq<Seq<i64>>, q: Seq<i64>, tau: int) -> Seq<u64> {
    qualifying_upto(dirs, q, tau, dirs.len() as int)
}

proof fn lemma_qualifying_upto_props(dirs: Seq<Seq<i64>>, q: Seq<i64>, tau: int, k: int)
    requires
        0 <= k <= dirs.len(),
        k <= u64::MAX,
    ensures
        forall|l: u64|
            #[trigger] qualifying_upto(dirs, q, tau, k).contains(l) <==> (l < k && dot(
                q,
                dirs[l as int],
            ) >= tau * SCALE),
        forall|x: int|
            0 <= x < qualifying_upto(dirs, q, tau, k).len() ==> #[trigger] qualifying_upto(
                dirs,
                q,
                tau,
                k,
            )[x] < k,
        forall|x: int, y: int|
            0 <= x < y < qualifying_upto(dirs, q, tau, k).len() ==> qualifying_upto(
                dirs,
                q,
                tau,
                k,
            )[x] < qualifying_upto(dirs, q, tau, k)[y],
    decreases k,
{
    if k > 0 {
        lemma_qualifying_upto_props(dirs, q, tau, k - 1);
        let prev = qualifying_upto(dirs, q, tau, k - 1);
        let cur = qualifying_upto(dirs, q, tau, k);
        assert forall|l: u64| #[trigger] cur.contains(l) implies (l < k && dot(q, dirs[l as int])
            >= tau * SCALE) by {
            let i = choose|i: int| 0 <= i < cur.len() && cur[i] == l;
            if i < prev.len() {
                assert(prev.contains(l));
            }
        }
        assert forall|l: u64| l < k && dot(q, dirs[l as int]) >= tau * SCALE implies
            #[trigger] cur.contains(l) by {
            if l < k - 1 {
                assert(prev.contains(l));
                let i = choose|i: int| 0 <= i < prev.len() && prev[i] == l;
                assert(cur[i] == l);
            } else {
                assert(cur[cur.len() - 1] == l);
            }
        }
    }
}

/// The candidate search is sound and complete: the returned labels are
/// exactly the direction indices whose dot product with the query reaches
/// the threshold, in strictly ascending order.
pub proof fn lemma_qualifying_characterization(dirs: Seq<Seq<i64>>, q: Seq<i64>, tau: int)
    requires
        dirs.len() <= u64::MAX,
    ensures
        forall|l: u64|
            #[trigger] qualifying(dirs, q, tau).contains(l) <==> (l < dirs.len() && dot(
                q,
                dirs[l as int],
            ) >= tau * SCALE),
        forall|x: int, y: int|
            0 <= x < y < qualifying(dirs, q, tau).len() ==> qualifying(dirs, q, tau)[x]
                < qualifying(dirs, q, tau)[y],
{
    lemma_qualifying_upto_props(dirs, q, tau, dirs.len() as int);
}

/// Each base label as a one-element composite label.
pub open spec fn singletons(ls: Seq<u64>) -> Seq<Seq<u64>> {
    ls.map_values(|l: u64| seq![l])
}

/// The outcome of probing one labelled bucket: the first close vector in
/// it, if the bucket exists and holds one.
pub open spec fn probe_label(table: BucketTable, label: Seq<u64>, q: Seq<i64>, beta: int) -> Option<
    Seq<i64>,
> {
    match table.lookup(label) {
        Some(b) => first_close(b, q, beta),
        None => None,
    }
}

/// The outcome of probing a sequence of labelled buckets in order: the
/// first hit wins.
pub open spec fn probe_all(
    table: BucketTable,
    labels: Seq<Seq<u64>>,
    q: Seq<i64>,
    beta: int,
) -> Option<Seq<i64>>
    decreases labels.len(),
{
    if labels.len() == 0 {
        None
    } else if probe_label(table, labels[0], q, beta) is Some {
        probe_label(table, labels[0], q, beta)
    } else {
        probe_all(table, labels.drop_first(), q, beta)
    }
}

/// `v` is one of the vectors stored in the table.
pub open spec fn stored_in(table: BucketTable, v: Seq<i64>) -> bool {
    exists|k: Seq<u64>|
        (#[trigger] table.lookup(k)) is Some && table.lookup(k).unwrap().contains(v)
}

/// The outcome a query is specified to produce against a direction set, a
/// threshold, a bucket table and a similarity bar.
pub open spec fn query_outcome(
    dirs: Seq<Seq<i64>>,
    tau: i64,
    table: BucketTable,
    beta: i64,
    q: Seq<i64>,
) -> Result<Option<Seq<i64>>, QueryError> {
    if !is_unit(q) {
        Err(QueryError::InvalidQuery)
    } else {
        Ok(probe_all(table, singletons(qualifying(dirs, q, tau as int)), q, beta as int))
    }
}

/// A vector reported by `first_close` is in the scanned bucket and meets
/// the bar.
pub proof fn lemma_first_close_sound(vs: Seq<Seq<i64>>, q: Seq<i64>, beta: int)
    ensures
        match first_close(vs, q, beta) {
            Some(v) => vs.contains(v) && dot(q, v) >= beta * SCALE,
            None => true,
        },
    decreases vs.len(),
{
    if vs.len() > 0 {
        if dot(q, vs[0]) >= beta * SCALE {
            assert(vs.contains(vs[0]));
        } else {
            lemma_first_close_sound(vs.drop_first(), q, beta);
            if first_close(vs.drop_first(), q, beta) is Some {
                let v = first_close(vs.drop_first(), q, beta).unwrap();
                let i = choose|i: int| 0 <= i < vs.drop_first().len() && vs.drop_first()[i] == v;
                assert(vs[i + 1] == v);
                assert(vs.contains(v));
            }
        }
    }
}

/// A vector reported by `probe_all` is stored in the table and meets the
/// bar.
pub proof fn lemma_probe_all_sound(
    table: BucketTable,
    labels: Seq<Seq<u64>>,
    q: Seq<i64>,
    beta: int,
)
    ensures
        match probe_all(table, labels, q, beta) {
            Some(v) => stored_in(table, v) && dot(q, v) >= beta * SCALE,
            None => true,
        },
    decreases labels.len(),
{
    if labels.len() > 0 {
        if probe_label(table, labels[0], q, beta) is Some {
            let b = table.lookup(labels[0]).unwrap();
            lemma_first_close_sound(b, q, beta);
        } else {
            lemma_probe_all_sound(table, labels.drop_first(), q, beta);
        }
    }
}

/// All the indices of the directions whose dot product with `query`
/// reaches the `threshold`, in ascending order.
pub fn search(gaussian_vectors: &Vec<Vec<i64>>, query: &Vec<i64>, threshold: i64) -> (r: Vec<u64>)
    requires
        bounded(query@, MAX_COORD as int),
        all_dim_bounded(views(gaussian_vectors@), query@.len() as int, MAX_COORD as int),
    ensures
        r@ == qualifying(views(gaussian_vectors@), query@, threshold as int),
{
    let m = gaussian_vectors.len();
    let mut r: Vec<u64> = Vec::new();
    let mut j: usize = 0;
    while j < m
        invariant
            0 <= j <= m,
            m == gaussian_vectors@.len(),
            bounded(query@, MAX_COORD as int),
            all_dim_bounded(views(gaussian_vectors@), query@.len() as int, MAX_COORD as int),
            r@ == qualifying_upto(views(gaussian_vectors@), query@, threshold as int, j as int),
        decreases m - j,
    {
        proof {
            assert(views(gaussian_vectors@)[j as int] == gaussian_vectors@[j as int]@);
        }
        let d = dot_product(query, &gaussian_vectors[j]);
        if d >= (threshold as i128) * (SCALE as i128) {
            r.push(j as u64);
        }
        j = j + 1;
    }
    r
}

/// Given a query `q`, return a close point according to dot product:
/// refuse a query off the unit sphere, then return the first vector
/// meeting `beta` among the candidate buckets, scanned in ascending label
/// order and insertion order.
pub fn query(
    gaussian_vectors: &Vec<Vec<i64>>,
    q: &Vec<i64>,
    threshold: i64,
    hash_table: &BucketTable,
    beta: i64,
) -> (r: Result<Option<Vec<i64>>, QueryError>)
    requires
        hash_table.wf(),
        all_dim_bounded(views(gaussian_vectors@), q@.len() as int, MAX_COORD as int),
        table_dims(*hash_table, q@.len() as int),
    ensures
        match r {
            Ok(Some(v)) => query_outcome(
                views(gaussian_vectors@),
                threshold,
                *hash_table,
                beta,
                q@,
            ) == Ok::<Option<Seq<i64>>, QueryError>(Some(v@)) && dot(q@, v@) >= beta * SCALE
                && stored_in(*hash_table, v@),
            Ok(None) => query_outcome(
                views(gaussian_vectors@),
                threshold,
                *hash_table,
                beta,
                q@,
            ) == Ok::<Option<Seq<i64>>, QueryError>(None),
            Err(e) => !is_unit(q@) && e == QueryError::InvalidQuery,
        },
{
    if !is_normalized(q) {
        return Err(QueryError::InvalidQuery);
    }
    proof {
        crate::utils::lemma_unit_bounded(q@);
    }
    let labels = search(gaussian_vectors, q, threshold);
    let ghost keys_seq = singletons(labels@);
    let n = labels.len();
    let mut i: usize = 0;
    proof {
        assert(keys_seq.skip(0) =~= keys_seq);
    }
    while i < n
        invariant
            0 <= i <= n,
            n == labels@.len(),
            labels@ == qualifying(views(gaussian_vectors@), q@, threshold as int),
            keys_seq == singletons(labels@),
            is_unit(q@),
            bounded(q@, MAX_COORD as int),
            hash_table.wf(),
            table_dims(*hash_table, q@.len() as int),
            probe_all(*hash_table, keys_seq, q@, beta as int) == probe_all(
                *hash_table,
                keys_seq.skip(i as int),
                q@,
                beta as int,
            ),
        decreases n - i,
    {
        let mut key: Vec<u64> = Vec::new();
        key.push(labels[i]);
        proof {
            assert(key@ =~= keys_seq[i as int]);
            assert(keys_seq.skip(i as int)[0] == keys_seq[i as int]);
        }
        match hash_table.get(&key) {
            Some(vectors) => {
                match find_close_vector(q, vectors, beta) {
                    Some(v) => {
                        proof {
                            assert(probe_label(*hash_table, keys_seq[i as int], q@, beta as int)
                                == Some(v@));
                            assert(probe_all(
                                *hash_table,
                                keys_seq.skip(i as int),
                                q@,
                                beta as int,
                            ) == Some(v@));
                            lemma_probe_all_sound(*hash_table, keys_seq, q@, beta as int);
                        }
                        return Ok(Some(v));
                    },
                    None => {},
                }
            },
            None => {},
        }
        proof {
            assert(keys_seq.skip(i as int).drop_first() =~= keys_seq.skip(i as int + 1));
        }
        i = i + 1;
    }
    proof {
        assert(keys_seq.skip(n as int) =~= Seq::<Seq<u64>>::empty());
    }
    Ok(None)
}

} // verus!
