//! The base single-projection-family index with the argmax assignment
//! policy: every data vector goes to the direction it most resembles,
//! ties broken by the lowest direction index.

use crate::bucket_table::{assigned_lookup, build_table, table_dims, BucketTable};
use crate::checks::{check_input, input_fault, valid_input, ValidationError};
use crate::query::{qualifying, query, query_outcome, search, stored_in, QueryError};
use crate::utils::{
    all_bounded, all_dim_bounded, bounded, dot, dot_product, is_unit, lemma_unit_bounded, views,
    MAX_COORD, SCALE,
};
use rayon::iter::{IndexedParallelIterator, IntoParallelRefIterator, ParallelIterator};
use vstd::prelude::*;

verus! {

/// The argmax over the first `k` directions: the index of the direction
/// with the largest dot product against `p`, scanned in order with a
/// strict comparison, so the lowest index wins a tie.
pub open spec fn argmax_upto(dirs: Seq<Seq<i64>>, p: Seq<i64>, k: int) -> int
    decreases k,
{
    if k <= 1 {
        0
    } else {
        let prev = argmax_upto(dirs, p, k - 1);
        if dot(p, dirs[k - 1]) > dot(p, dirs[prev]) {
            k - 1
        } else {
            prev
        }
    }
}

/// The bucket label the argmax policy assigns to `p`.
pub open spec fn argmax_label(dirs: Seq<Seq<i64>>, p: Seq<i64>) -> int {
    argmax_upto(dirs, p, dirs.len() as int)
}

/// `j` is the arg-max direction of `p`: every earlier direction scores
/// strictly less and every later direction scores no more.
pub open spec fn is_argmax(dirs: Seq<Seq<i64>>, p: Seq<i64>, j: int) -> bool {
    &&& 0 <= j < dirs.len()
    &&& forall|i: int| 0 <= i < j ==> #[trigger] dot(p, dirs[i]) < dot(p, dirs[j])
    &&& forall|i: int| j < i < dirs.len() ==> #[trigger] dot(p, dirs[i]) <= dot(p, dirs[j])
}

/// The assignment of the argmax policy, as a per-point key function.
pub open spec fn argmax_assignment(dirs: Seq<Seq<i64>>) -> spec_fn(Seq<i64>) -> Option<Seq<u64>> {
    |p: Seq<i64>| Some(seq![argmax_label(dirs, p) as u64])
}

/// The prefix argmax is in range and beats every other prefix index.
proof fn lemma_argmax_upto(dirs: Seq<Seq<i64>>, p: Seq<i64>, k: int)
    requires
        1 <= k <= dirs.len(),
    ensures
        0 <= argmax_upto(dirs, p, k) < k,
        forall|i: int|
            0 <= i < argmax_upto(dirs, p, k) ==> #[trigger] dot(p, dirs[i]) < dot(
                p,
                dirs[argmax_upto(dirs, p, k)],
            ),
        forall|i: int|
            argmax_upto(dirs, p, k) < i < k ==> #[trigger] dot(p, dirs[i]) <= dot(
                p,
                dirs[argmax_upto(dirs, p, k)],
            ),
    decreases k,
{
    if k > 1 {
        lemma_argmax_upto(dirs, p, k - 1);
    }
}

/// The argmax label satisfies the arg-max characterization.
pub proof fn lemma_argmax_is_argmax(dirs: Seq<Seq<i64>>, p: Seq<i64>)
    requires
        dirs.len() >= 1,
    ensures
        is_argmax(dirs, p, argmax_label(dirs, p)),
{
    lemma_argmax_upto(dirs, p, dirs.len() as int);
}

/// The arg-max assignment is deterministic: at most one direction index
/// satisfies the arg-max characterization for a given point.
pub proof fn lemma_argmax_unique(dirs: Seq<Seq<i64>>, p: Seq<i64>, j1: int, j2: int)
    requires
        is_argmax(dirs, p, j1),
        is_argmax(dirs, p, j2),
    ensures
        j1 == j2,
{
    if j1 < j2 {
        assert(dot(p, dirs[j1]) < dot(p, dirs[j2]));
        assert(dot(p, dirs[j2]) <= dot(p, dirs[j1]));
    }
    if j2 < j1 {
        assert(dot(p, dirs[j2]) < dot(p, dirs[j1]));
        assert(dot(p, dirs[j1]) <= dot(p, dirs[j2]));
    }
}

/// The index of the direction with the highest dot product against
/// `point`, ties broken by the lowest index.
pub fn argmax_match(point: &Vec<i64>, gaussian_vectors: &Vec<Vec<i64>>) -> (r: u64)
    requires
        gaussian_vectors@.len() >= 1,
        bounded(point@, MAX_COORD as int),
        all_dim_bounded(views(gaussian_vectors@), point@.len() as int, MAX_COORD as int),
    ensures
        r as int == argmax_label(views(gaussian_vectors@), point@),
        is_argmax(views(gaussian_vectors@), point@, r as int),
{
    let ghost dirs = views(gaussian_vectors@);
    let m = gaussian_vectors.len();
    proof {
        assert(dirs[0] == gaussian_vectors@[0]@);
    }
    let mut best = dot_product(point, &gaussian_vectors[0]);
    let mut best_idx: usize = 0;
    let mut j: usize = 1;
    while j < m
        invariant
            1 <= j <= m,
            m == gaussian_vectors@.len(),
            dirs == views(gaussian_vectors@),
            bounded(point@, MAX_COORD as int),
            all_dim_bounded(dirs, point@.len() as int, MAX_COORD as int),
            best_idx < j,
            best == dot(point@, dirs[best_idx as int]),
            best_idx as int == argmax_upto(dirs, point@, j as int),
        decreases m - j,
    {
        proof {
            assert(dirs[j as int] == gaussian_vectors@[j as int]@);
        }
        let d = dot_product(point, &gaussian_vectors[j]);
        if d > best {
            best = d;
            best_idx = j;
        }
        j = j + 1;
    }
    proof {
        lemma_argmax_is_argmax(dirs, point@);
    }
    best_idx as u64
}

/// For each vector in `data`, the index of the direction with the highest
/// dot product.
pub fn get_match_list(data: &Vec<Vec<i64>>, gaussian_vectors: &Vec<Vec<i64>>) -> (r: Vec<u64>)
    requires
        gaussian_vectors@.len() >= 1,
        all_dim_bounded(
            views(gaussian_vectors@),
            views(gaussian_vectors@)[0].len() as int,
            MAX_COORD as int,
        ),
        all_dim_bounded(views(data@), views(gaussian_vectors@)[0].len() as int, MAX_COORD as int),
    ensures
        r@.len() == data@.len(),
        forall|i: int|
            0 <= i < data@.len() ==> (#[trigger] r@[i]) as int == argmax_label(
                views(gaussian_vectors@),
                views(data@)[i],
            ) && is_argmax(views(gaussian_vectors@), views(data@)[i], r@[i] as int),
{
    let ghost dirs = views(gaussian_vectors@);
    let n = data.len();
    let mut r: Vec<u64> = Vec::new();
    let mut i: usize = 0;
    while i < n
        invariant
            0 <= i <= n,
            n == data@.len(),
            dirs == views(gaussian_vectors@),
            gaussian_vectors@.len() >= 1,
            all_dim_bounded(dirs, dirs[0].len() as int, MAX_COORD as int),
            all_dim_bounded(views(data@), dirs[0].len() as int, MAX_COORD as int),
            r@.len() == i,
            forall|j: int|
                0 <= j < i ==> (#[trigger] r@[j]) as int == argmax_label(dirs, views(data@)[j])
                    && is_argmax(dirs, views(data@)[j], r@[j] as int),
        decreases n - i,
    {
        proof {
            assert(views(data@)[i as int] == data@[i as int]@);
        }
        let label = argmax_match(&data[i], gaussian_vectors);
        r.push(label);
        i = i + 1;
    }
    r
}

/// The same match list computed with a parallel worker pool.
///
/// Relies on rayon's `par_iter`, `map` and `collect_into_vec`: an indexed
/// parallel map runs the closure on every item and places each result at
/// its item's index, so the collected list equals the sequential map.
#[verifier::external_body]
pub fn get_match_list_parallel(data: &Vec<Vec<i64>>, gaussian_vectors: &Vec<Vec<i64>>) -> (r: Vec<
    u64,
>)
    requires
        gaussian_vectors@.len() >= 1,
        all_dim_bounded(
            views(gaussian_vectors@),
            views(gaussian_vectors@)[0].len() as int,
            MAX_COORD as int,
        ),
        all_dim_bounded(views(data@), views(gaussian_vectors@)[0].len() as int, MAX_COORD as int),
    ensures
        r@.len() == data@.len(),
        forall|i: int|
            0 <= i < data@.len() ==> (#[trigger] r@[i]) as int == argmax_label(
                views(gaussian_vectors@),
                views(data@)[i],
            ) && is_argmax(views(gaussian_vectors@), views(data@)[i], r@[i] as int),
{
    let mut r: Vec<u64> = Vec::new();
    data.par_iter().map(|point| argmax_match(point, gaussian_vectors)).collect_into_vec(&mut r);
    r
}

/// Build the bucket table of the argmax policy from a precomputed match
/// list: each point goes to the bucket of its arg-max direction, in data
/// order.
fn labels_to_table(
    data: &Vec<Vec<i64>>,
    match_list: &Vec<u64>,
    gaussian_vectors: &Vec<Vec<i64>>,
) -> (r: BucketTable)
    requires
        gaussian_vectors@.len() >= 1,
        all_dim_bounded(views(data@), views(gaussian_vectors@)[0].len() as int, MAX_COORD as int),
        match_list@.len() == data@.len(),
        forall|i: int|
            0 <= i < data@.len() ==> (#[trigger] match_list@[i]) as int == argmax_label(
                views(gaussian_vectors@),
                views(data@)[i],
            ),
    ensures
        r.wf(),
        table_dims(r, views(gaussian_vectors@)[0].len() as int),
        forall|k: Seq<u64>|
            r.lookup(k) == assigned_lookup(
                views(data@),
                argmax_assignment(views(gaussian_vectors@)),
                k,
            ),
        r.total_count() == data@.len(),
{
    let ghost dirs = views(gaussian_vectors@);
    let ghost key_of = argmax_assignment(dirs);
    let n = data.len();
    let mut keys: Vec<Option<Vec<u64>>> = Vec::new();
    let mut i: usize = 0;
    while i < n
        invariant
            0 <= i <= n,
            n == data@.len(),
            dirs == views(gaussian_vectors@),
            key_of == argmax_assignment(dirs),
            match_list@.len() == n,
            forall|j: int|
                0 <= j < n ==> (#[trigger] match_list@[j]) as int == argmax_label(
                    dirs,
                    views(data@)[j],
                ),
            keys@.len() == i,
            forall|j: int|
                0 <= j < i ==> crate::bucket_table::opt_label_view(#[trigger] keys@[j]) == key_of(
                    views(data@)[j],
                ),
        decreases n - i,
    {
        let mut key: Vec<u64> = Vec::new();
        key.push(match_list[i]);
        proof {
            assert(key@ =~= seq![match_list@[i as int]]);
            assert(seq![match_list@[i as int]] =~= seq![
                argmax_label(dirs, views(data@)[i as int]) as u64,
            ]);
        }
        keys.push(Some(key));
        i = i + 1;
    }
    let table = build_table(
        data,
        &keys,
        Ghost(key_of),
        Ghost(views(gaussian_vectors@)[0].len() as int),
    );
    proof {
        lemma_assigned_count_all(views(data@), key_of, data@.len() as int);
    }
    table
}

/// For each vector in `data`, find the direction with the highest dot
/// product and store the vector in that direction's bucket, in data order.
pub fn get_hash_table(data: &Vec<Vec<i64>>, gaussian_vectors: &Vec<Vec<i64>>) -> (r: BucketTable)
    requires
        gaussian_vectors@.len() >= 1,
        all_dim_bounded(
            views(gaussian_vectors@),
            views(gaussian_vectors@)[0].len() as int,
            MAX_COORD as int,
        ),
        all_dim_bounded(views(data@), views(gaussian_vectors@)[0].len() as int, MAX_COORD as int),
    ensures
        r.wf(),
        table_dims(r, views(gaussian_vectors@)[0].len() as int),
        forall|k: Seq<u64>|
            r.lookup(k) == assigned_lookup(
                views(data@),
                argmax_assignment(views(gaussian_vectors@)),
                k,
            ),
        r.total_count() == data@.len(),
{
    let match_list = get_match_list(data, gaussian_vectors);
    labels_to_table(data, &match_list, gaussian_vectors)
}

/// The base index under the argmax assignment policy: `m` random
/// directions, the per-point match list, the bucket table they induce,
/// and the derived search threshold.
pub struct Top1 {
    /// The `m` random directions, in fixed-point coordinates.
    pub gaussian_vectors: Vec<Vec<i64>>,
    /// For each data vector, the index of its arg-max direction.
    pub match_list: Vec<u64>,
    /// The bucket of each direction index that received a vector.
    pub hash_table: BucketTable,
    /// Fixed-point rendering of the similarity parameter `alpha`.
    pub alpha: i64,
    /// Fixed-point rendering of the minimum acceptable similarity `beta`.
    pub beta: i64,
    /// Fixed-point rendering of the derived search threshold.
    pub threshold: i64,
    /// The number of directions.
    pub m: usize,
}

impl Top1 {
    /// The dimension the index is fixed to.
    pub open spec fn dim(self) -> int {
        self.gaussian_vectors@[0]@.len() as int
    }

    /// The direction set, as coordinate sequences.
    pub open spec fn dirs(self) -> Seq<Seq<i64>> {
        views(self.gaussian_vectors@)
    }

    /// Structural invariant: a non-empty direction set of uniform positive
    /// dimension and bounded coordinates, a well-formed table of vectors
    /// of that dimension, and parameters in range.
    pub open spec fn wf(self) -> bool {
        &&& self.m == self.gaussian_vectors@.len()
        &&& self.m >= 1
        &&& self.dim() >= 1
        &&& all_dim_bounded(self.dirs(), self.dim(), MAX_COORD as int)
        &&& self.hash_table.wf()
        &&& table_dims(self.hash_table, self.dim())
        &&& 0 < self.beta < self.alpha < SCALE
    }

    /// Build the index: validate the input, assign every data vector to
    /// its arg-max direction with a parallel worker pool, and populate
    /// the bucket table in data order.  The directions and the threshold
    /// come from the caller's random-direction and threshold collaborators.
    pub fn new(
        data: &Vec<Vec<i64>>,
        directions: Vec<Vec<i64>>,
        alpha: i64,
        beta: i64,
        theta: i64,
        threshold: i64,
    ) -> (r: Result<Top1, ValidationError>)
        requires
            all_bounded(views(data@), MAX_COORD as int),
            directions@.len() >= 1,
            all_dim_bounded(
                views(directions@),
                views(directions@)[0].len() as int,
                MAX_COORD as int,
            ),
            views(directions@)[0].len() >= 1,
            data@.len() > 0 ==> views(directions@)[0].len() == views(data@)[0].len(),
        ensures
            match r {
                Ok(t) => {
                    &&& valid_input(views(data@), alpha, beta, theta)
                    &&& t.wf()
                    &&& t.gaussian_vectors@ == directions@
                    &&& t.alpha == alpha
                    &&& t.beta == beta
                    &&& t.threshold == threshold
                    &&& t.m == directions@.len()
                    &&& t.match_list@.len() == data@.len()
                    &&& forall|i: int|
                        0 <= i < data@.len() ==> is_argmax(
                            views(directions@),
                            views(data@)[i],
                            (#[trigger] t.match_list@[i]) as int,
                        )
                    &&& forall|k: Seq<u64>|
                        t.hash_table.lookup(k) == assigned_lookup(
                            views(data@),
                            argmax_assignment(views(directions@)),
                            k,
                        )
                    &&& t.hash_table.total_count() == data@.len()
                },
                Err(e) => input_fault(views(data@), alpha, beta, theta) == Some(e),
            },
    {
        match check_input(data, alpha, beta, theta) {
            Err(e) => Err(e),
            Ok(()) => {
                proof {
                    let dv = views(data@);
                    assert forall|i: int| 0 <= i < dv.len() implies (#[trigger] dv[i]).len()
                        == views(directions@)[0].len() && bounded(dv[i], MAX_COORD as int) by {
                        assert(dv[i] == data@[i]@);
                        assert(dv[0] == data@[0]@);
                        lemma_unit_bounded(dv[i]);
                    }
                }
                let match_list = get_match_list_parallel(data, &directions);
                let hash_table = labels_to_table(data, &match_list, &directions);
                let m = directions.len();
                Ok(
                    Top1 {
                        gaussian_vectors: directions,
                        match_list,
                        hash_table,
                        alpha,
                        beta,
                        threshold,
                        m,
                    },
                )
            },
        }
    }

    /// All the indices of the directions whose dot product with the query
    /// reaches the threshold, in ascending order.
    pub fn search(&self, q: &Vec<i64>) -> (r: Vec<u64>)
        requires
            self.wf(),
            bounded(q@, MAX_COORD as int),
            q@.len() == self.dim(),
        ensures
            r@ == qualifying(self.dirs(), q@, self.threshold as int),
    {
        search(&self.gaussian_vectors, q, self.threshold)
    }

    /// The bucket label of the `i`-th data vector: the index of its
    /// arg-max direction.
    pub fn hash(&self, i: usize) -> (r: u64)
        requires
            i < self.match_list@.len(),
        ensures
            r == self.match_list@[i as int],
    {
        self.match_list[i]
    }

    /// Given a query `q`, return a close point according to dot product:
    /// an error off the unit sphere, otherwise the first stored vector
    /// meeting `beta` among the candidate buckets, or nothing.  The
    /// ensured outcome is a function of the frozen index and the query
    /// alone, so repeated queries with the same vector return the same
    /// outcome.
    pub fn query(&self, q: &Vec<i64>) -> (r: Result<Option<Vec<i64>>, QueryError>)
        requires
            self.wf(),
            q@.len() == self.dim(),
        ensures
            match r {
                Ok(Some(v)) => query_outcome(
                    self.dirs(),
                    self.threshold,
                    self.hash_table,
                    self.beta,
                    q@,
                ) == Ok::<Option<Seq<i64>>, QueryError>(Some(v@)) && dot(q@, v@) >= self.beta
                    * SCALE && stored_in(self.hash_table, v@),
                Ok(None) => query_outcome(
                    self.dirs(),
                    self.threshold,
                    self.hash_table,
                    self.beta,
                    q@,
                ) == Ok::<Option<Seq<i64>>, QueryError>(None),
                Err(e) => !is_unit(q@) && e == QueryError::InvalidQuery,
            },
    {
        query(&self.gaussian_vectors, q, self.threshold, &self.hash_table, self.beta)
    }
}

/// Under a total assignment every point is counted.
pub(crate) proof fn lemma_assigned_count_all(
    data: Seq<Seq<i64>>,
    key_of: spec_fn(Seq<i64>) -> Option<Seq<u64>>,
    n: int,
)
    requires
        0 <= n <= data.len(),
        forall|i: int| 0 <= i < data.len() ==> (#[trigger] key_of(data[i])) is Some,
    ensures
        crate::bucket_table::assigned_count_upto(data, key_of, n) == n,
    decreases n,
{
    if n > 0 {
        lemma_assigned_count_all(data, key_of, n - 1);
    }
}

} // verus!
