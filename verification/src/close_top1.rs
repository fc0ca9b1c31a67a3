//! The base index with the corridor (window) assignment policy: each
//! data vector goes to the bucket of the *first* direction, in
//! enumeration order, whose dot product with it falls inside the
//! corridor `[left, right]`.  A vector matching no direction's corridor
//! is absent from the bucket table altogether — a deliberate
//! single-assignment policy.  Search and query are the same
//! threshold-gated machinery as the argmax index.

use crate::bucket_table::{
    assigned_count, assigned_lookup, build_table, opt_label_view, table_dims, BucketTable,
};
use crate::checks::{check_input, input_fault, valid_input, ValidationError};
use crate::query::{qualifying, query, query_outcome, search, stored_in, QueryError};
use crate::utils::{
    all_bounded, all_dim_bounded, bounded, dot, dot_product, is_unit, lemma_unit_bounded, views,
    MAX_COORD, SCALE,
};
use vstd::prelude::*;

verus! {

/// The dot product of `p` with `dir` falls inside the corridor.
pub open spec fn in_window(p: Seq<i64>, dir: Seq<i64>, left: int, right: int) -> bool {
    left * SCALE <= dot(p, dir) && dot(p, dir) <= right * SCALE
}

/// The first direction among the first `k`, in enumeration order, whose
/// corridor admits `p`.
pub open spec fn corridor_upto(
    dirs: Seq<Seq<i64>>,
    p: Seq<i64>,
    left: int,
    right: int,
    k: int,
) -> Option<int>
    decreases k,
{
    if k <= 0 {
        None
    } else {
        match corridor_upto(dirs, p, left, right, k - 1) {
            Some(j) => Some(j),
            None => if in_window(p, dirs[k - 1], left, right) {
                Some(k - 1)
            } else {
                None
            },
        }
    }
}

/// The bucket label the corridor policy assigns to `p`, if any.
pub open spec fn corridor_label(dirs: Seq<Seq<i64>>, p: Seq<i64>, left: int, right: int) -> Option<
    int,
> {
    corridor_upto(dirs, p, left, right, dirs.len() as int)
}

/// The assignment of the corridor policy, as a per-point key function.
pub open spec fn corridor_assignment(dirs: Seq<Seq<i64>>, left: i64, right: i64) -> spec_fn(
    Seq<i64>,
) -> Option<Seq<u64>> {
    |p: Seq<i64>|
        match corridor_label(dirs, p, left as int, right as int) {
            Some(j) => Some(seq![j as u64]),
            None => None,
        }
}

/// The prefix corridor scan finds the first admitting direction, or none.
proof fn lemma_corridor_upto(dirs: Seq<Seq<i64>>, p: Seq<i64>, left: int, right: int, k: int)
    requires
        0 <= k <= dirs.len(),
    ensures
        match corridor_upto(dirs, p, left, right, k) {
            Some(j) => 0 <= j < k && in_window(p, dirs[j], left, right) && forall|i: int|
                0 <= i < j ==> !in_window(p, #[trigger] dirs[i], left, right),
            None => forall|i: int| 0 <= i < k ==> !in_window(p, #[trigger] dirs[i], left, right),
        },
    decreases k,
{
    if k > 0 {
        lemma_corridor_upto(dirs, p, left, right, k - 1);
    }
}

/// A point is assigned somewhere exactly when some direction's corridor
/// admits it.
pub proof fn lemma_corridor_label_window(dirs: Seq<Seq<i64>>, p: Seq<i64>, left: int, right: int)
    ensures
        corridor_label(dirs, p, left, right) is Some <==> exists|j: int|
            0 <= j < dirs.len() && in_window(p, #[trigger] dirs[j], left, right),
{
    lemma_corridor_upto(dirs, p, left, right, dirs.len() as int);
    if corridor_label(dirs, p, left, right) is Some {
        let j = corridor_label(dirs, p, left, right).unwrap();
        assert(in_window(p, dirs[j], left, right));
    }
}

/// Once the prefix scan has found a direction, longer scans keep it.
proof fn lemma_corridor_extend(
    dirs: Seq<Seq<i64>>,
    p: Seq<i64>,
    left: int,
    right: int,
    k1: int,
    k2: int,
)
    requires
        0 <= k1 <= k2 <= dirs.len(),
        corridor_upto(dirs, p, left, right, k1) is Some,
    ensures
        corridor_upto(dirs, p, left, right, k2) == corridor_upto(dirs, p, left, right, k1),
    decreases k2 - k1,
{
    if k1 < k2 {
        lemma_corridor_extend(dirs, p, left, right, k1, k2 - 1);
    }
}

/// The index of the first direction whose corridor admits `point`, if
/// any.
pub fn corridor_match(
    point: &Vec<i64>,
    gaussian_vectors: &Vec<Vec<i64>>,
    left: i64,
    right: i64,
) -> (r: Option<u64>)
    requires
        bounded(point@, MAX_COORD as int),
        all_dim_bounded(views(gaussian_vectors@), point@.len() as int, MAX_COORD as int),
    ensures
        match r {
            Some(j) => corridor_label(views(gaussian_vectors@), point@, left as int, right as int)
                == Some(j as int),
            None => corridor_label(
                views(gaussian_vectors@),
                point@,
                left as int,
                right as int,
            ) is None,
        },
{
    let ghost dirs = views(gaussian_vectors@);
    let m = gaussian_vectors.len();
    let mut j: usize = 0;
    while j < m
        invariant
            0 <= j <= m,
            m == gaussian_vectors@.len(),
            dirs == views(gaussian_vectors@),
            bounded(point@, MAX_COORD as int),
            all_dim_bounded(dirs, point@.len() as int, MAX_COORD as int),
            corridor_upto(dirs, point@, left as int, right as int, j as int) is None,
        decreases m - j,
    {
        proof {
            assert(dirs[j as int] == gaussian_vectors@[j as int]@);
        }
        let d = dot_product(point, &gaussian_vectors[j]);
        if (left as i128) * (SCALE as i128) <= d && d <= (right as i128) * (SCALE as i128) {
            proof {
                assert(corridor_upto(dirs, point@, left as int, right as int, j as int + 1)
                    == Some(j as int));
                lemma_corridor_extend(
                    dirs,
                    point@,
                    left as int,
                    right as int,
                    j as int + 1,
                    dirs.len() as int,
                );
            }
            return Some(j as u64);
        }
        j = j + 1;
    }
    None
}

/// For each vector in `data`, find the first direction whose corridor
/// admits it and store the vector in that direction's bucket, in data
/// order; vectors admitted nowhere are left out.
pub fn get_hash_table(
    data: &Vec<Vec<i64>>,
    gaussian_vectors: &Vec<Vec<i64>>,
    left: i64,
    right: i64,
) -> (r: BucketTable)
    requires
        gaussian_vectors@.len() >= 1,
        all_dim_bounded(
            views(gaussian_vectors@),
            views(gaussian_vectors@)[0].len() as int,
            MAX_COORD as int,
        ),
        all_dim_bounded(views(data@), views(gaussian_vectors@)[0].len() as int, MAX_COORD as int),
    ensures
        r.wf(),
        table_dims(r, views(gaussian_vectors@)[0].len() as int),
        forall|k: Seq<u64>|
            r.lookup(k) == assigned_lookup(
                views(data@),
                corridor_assignment(views(gaussian_vectors@), left, right),
                k,
            ),
        r.total_count() == assigned_count(
            views(data@),
            corridor_assignment(views(gaussian_vectors@), left, right),
        ),
{
    let ghost dirs = views(gaussian_vectors@);
    let ghost key_of = corridor_assignment(dirs, left, right);
    let n = data.len();
    let mut keys: Vec<Option<Vec<u64>>> = Vec::new();
    let mut i: usize = 0;
    while i < n
        invariant
            0 <= i <= n,
            n == data@.len(),
            dirs == views(gaussian_vectors@),
            key_of == corridor_assignment(dirs, left, right),
            all_dim_bounded(views(data@), views(gaussian_vectors@)[0].len() as int,
                MAX_COORD as int),
            all_dim_bounded(dirs, views(gaussian_vectors@)[0].len() as int, MAX_COORD as int),
            keys@.len() == i,
            forall|j: int|
                0 <= j < i ==> opt_label_view(#[trigger] keys@[j]) == key_of(views(data@)[j]),
        decreases n - i,
    {
        proof {
            assert(views(data@)[i as int] == data@[i as int]@);
        }
        match corridor_match(&data[i], gaussian_vectors, left, right) {
            Some(label) => {
                let mut key: Vec<u64> = Vec::new();
                key.push(label);
                proof {
                    assert(key@ =~= seq![label]);
                    assert(seq![label] =~= seq![
                        corridor_label(dirs, views(data@)[i as int], left as int, right as int)
                            .unwrap() as u64,
                    ]);
                }
                keys.push(Some(key));
            },
            None => {
                keys.push(None);
            },
        }
        i = i + 1;
    }
    build_table(data, &keys, Ghost(key_of), Ghost(views(gaussian_vectors@)[0].len() as int))
}

/// The base index under the corridor assignment policy.
pub struct CloseTop1 {
    /// The `m` random directions, in fixed-point coordinates.
    pub gaussian_vectors: Vec<Vec<i64>>,
    /// The bucket of each direction index that received a vector.
    pub hash_table: BucketTable,
    /// Fixed-point rendering of the similarity parameter `alpha`.
    pub alpha: i64,
    /// Fixed-point rendering of the minimum acceptable similarity `beta`.
    pub beta: i64,
    /// Fixed-point rendering of the derived search threshold.
    pub threshold: i64,
    /// The number of directions.
    pub m: usize,
}

impl CloseTop1 {
    /// The dimension the index is fixed to.
    pub open spec fn dim(self) -> int {
        self.gaussian_vectors@[0]@.len() as int
    }

    /// The direction set, as coordinate sequences.
    pub open spec fn dirs(self) -> Seq<Seq<i64>> {
        views(self.gaussian_vectors@)
    }

    /// Structural invariant, as for the argmax index.
    pub open spec fn wf(self) -> bool {
        &&& self.m == self.gaussian_vectors@.len()
        &&& self.m >= 1
        &&& self.dim() >= 1
        &&& all_dim_bounded(self.dirs(), self.dim(), MAX_COORD as int)
        &&& self.hash_table.wf()
        &&& table_dims(self.hash_table, self.dim())
        &&& 0 < self.beta < self.alpha < SCALE
    }

    /// Build the index: validate the input, then assign each data vector
    /// to the first direction whose corridor `[left, right]` admits it.
    /// The directions, the threshold and the corridor bounds come from
    /// the caller's collaborators.
    pub fn new(
        data: &Vec<Vec<i64>>,
        directions: Vec<Vec<i64>>,
        alpha: i64,
        beta: i64,
        theta: i64,
        threshold: i64,
        left: i64,
        right: i64,
    ) -> (r: Result<CloseTop1, ValidationError>)
        requires
            all_bounded(views(data@), MAX_COORD as int),
            directions@.len() >= 1,
            all_dim_bounded(
                views(directions@),
                views(directions@)[0].len() as int,
                MAX_COORD as int,
            ),
            views(directions@)[0].len() >= 1,
            data@.len() > 0 ==> views(directions@)[0].len() == views(data@)[0].len(),
        ensures
            match r {
                Ok(t) => {
                    &&& valid_input(views(data@), alpha, beta, theta)
                    &&& t.wf()
                    &&& t.gaussian_vectors@ == directions@
                    &&& t.alpha == alpha
                    &&& t.beta == beta
                    &&& t.threshold == threshold
                    &&& t.m == directions@.len()
                    &&& forall|k: Seq<u64>|
                        t.hash_table.lookup(k) == assigned_lookup(
                            views(data@),
                            corridor_assignment(views(directions@), left, right),
                            k,
                        )
                    &&& t.hash_table.total_count() == assigned_count(
                        views(data@),
                        corridor_assignment(views(directions@), left, right),
                    )
                },
                Err(e) => input_fault(views(data@), alpha, beta, theta) == Some(e),
            },
    {
        match check_input(data, alpha, beta, theta) {
            Err(e) => Err(e),
            Ok(()) => {
                proof {
                    let dv = views(data@);
                    assert forall|i: int| 0 <= i < dv.len() implies (#[trigger] dv[i]).len()
                        == views(directions@)[0].len() && bounded(dv[i], MAX_COORD as int) by {
                        assert(dv[i] == data@[i]@);
                        assert(dv[0] == data@[0]@);
                        lemma_unit_bounded(dv[i]);
                    }
                }
                let hash_table = get_hash_table(data, &directions, left, right);
                let m = directions.len();
                Ok(
                    CloseTop1 {
                        gaussian_vectors: directions,
                        hash_table,
                        alpha,
                        beta,
                        threshold,
                        m,
                    },
                )
            },
        }
    }

    /// All the indices of the directions whose dot product with the query
    /// reaches the threshold, in ascending order.
    pub fn search(&self, q: &Vec<i64>) -> (r: Vec<u64>)
        requires
            self.wf(),
            bounded(q@, MAX_COORD as int),
            q@.len() == self.dim(),
        ensures
            r@ == qualifying(self.dirs(), q@, self.threshold as int),
    {
        search(&self.gaussian_vectors, q, self.threshold)
    }

    /// Given a query `q`, return a close point according to dot product,
    /// exactly as the argmax index does.  The ensured outcome is a
    /// function of the frozen index and the query alone, so repeated
    /// queries with the same vector return the same outcome.
    pub fn query(&self, q: &Vec<i64>) -> (r: Result<Option<Vec<i64>>, QueryError>)
        requires
            self.wf(),
            q@.len() == self.dim(),
        ensures
            match r {
                Ok(Some(v)) => query_outcome(
                    self.dirs(),
                    self.threshold,
                    self.hash_table,
                    self.beta,
                    q@,
                ) == Ok::<Option<Seq<i64>>, QueryError>(Some(v@)) && dot(q@, v@) >= self.beta
                    * SCALE && stored_in(self.hash_table, v@),
                Ok(None) => query_outcome(
                    self.dirs(),
                    self.threshold,
                    self.hash_table,
                    self.beta,
                    q@,
                ) == Ok::<Option<Seq<i64>>, QueryError>(None),
                Err(e) => !is_unit(q@) && e == QueryError::InvalidQuery,
            },
    {
        query(&self.gaussian_vectors, q, self.threshold, &self.hash_table, self.beta)
    }
}

} // verus!
