//! Fixed-point vector primitives: the scale, the dot product, the
//! normalization check, and the linear scan for a close vector.
//!
//! A coordinate is an `i64` holding the real value times [`SCALE`]; a dot
//! product of two such vectors is therefore the real inner product times
//! `SCALE * SCALE`, held exactly in an `i128`.

use vstd::prelude::*;

verus! {

/// Fixed-point scale: an `i64` coordinate holds the real value times `SCALE`.
pub const SCALE: i64 = 1_000_000;

/// `SCALE * SCALE`: the representation of the real value 1 in squared-norm
/// (dot-product) units.
pub const SQ_SCALE: i128 = 1_000_000_000_000;

/// Tolerance on the squared norm of a unit vector, in squared-norm units:
/// the rendering of the real tolerance 1e-6.
pub const NORM_TOL: i128 = 1_000_000;

/// Largest coordinate magnitude the similarity arithmetic accepts: generous
/// for every vector near the unit sphere and for raw Gaussian directions,
/// and small enough that no dot product can overflow an `i128`.
pub const MAX_COORD: i64 = 2_000_000_000;

/// All coordinates of `v` have magnitude at most `b`.
pub open spec fn bounded(v: Seq<i64>, b: int) -> bool {
    forall|i: int| 0 <= i < v.len() ==> -b <= #[trigger] v[i] <= b
}

/// The coordinate sequences of a sequence of vectors.
pub open spec fn views(s: Seq<Vec<i64>>) -> Seq<Seq<i64>> {
    s.map_values(|v: Vec<i64>| v@)
}

/// Every vector of `s` has coordinates bounded by `b`.
pub open spec fn all_bounded(s: Seq<Seq<i64>>, b: int) -> bool {
    forall|k: int| 0 <= k < s.len() ==> bounded(#[trigger] s[k], b)
}

/// Every vector of `s` has dimension `d` and coordinates bounded by `b`.
pub open spec fn all_dim_bounded(s: Seq<Seq<i64>>, d: int, b: int) -> bool {
    forall|k: int| 0 <= k < s.len() ==> (#[trigger] s[k]).len() == d && bounded(s[k], b)
}

/// Inner product of two equal-length coordinate sequences, in squared-norm
/// units.
pub open spec fn dot(a: Seq<i64>, b: Seq<i64>) -> int
    decreases a.len(),
{
    if a.len() == 0 || b.len() == 0 {
        0
    } else {
        dot(a.drop_last(), b.drop_last()) + a.last() * b.last()
    }
}

/// Squared norm of `v`, in squared-norm units.
pub open spec fn sq_norm(v: Seq<i64>) -> int {
    dot(v, v)
}

/// `v` lies on the unit sphere within the fixed tolerance.
pub open spec fn is_unit(v: Seq<i64>) -> bool {
    -(NORM_TOL as int) <= sq_norm(v) - SQ_SCALE as int <= NORM_TOL as int
}

/// A product of values bounded by `ba` and `bb` is bounded by `ba * bb`.
proof fn lemma_mul_bound(x: int, y: int, ba: int, bb: int)
    by (nonlinear_arith)
    requires
        -ba <= x <= ba,
        -bb <= y <= bb,
        0 <= ba,
        0 <= bb,
    ensures
        -(ba * bb) <= x * y <= ba * bb,
{
}

/// A dot product of bounded equal-length vectors is bounded by the length
/// times the product of the coordinate bounds.
pub proof fn lemma_dot_bound(a: Seq<i64>, b: Seq<i64>, ba: int, bb: int)
    requires
        a.len() == b.len(),
        bounded(a, ba),
        bounded(b, bb),
        0 <= ba,
        0 <= bb,
    ensures
        -(a.len() * ba * bb) <= dot(a, b) <= a.len() * ba * bb,
    decreases a.len(),
{
    if a.len() == 0 {
    } else {
        assert(bounded(a.drop_last(), ba));
        assert(bounded(b.drop_last(), bb));
        lemma_dot_bound(a.drop_last(), b.drop_last(), ba, bb);
        lemma_mul_bound(a.last() as int, b.last() as int, ba, bb);
        assert((a.len() - 1) * ba * bb + ba * bb == a.len() * ba * bb) by (nonlinear_arith);
    }
}

/// Extending both prefixes by one coordinate adds that coordinate product to
/// the dot product.
pub proof fn lemma_dot_take_succ(a: Seq<i64>, b: Seq<i64>, i: int)
    requires
        0 <= i < a.len(),
        i < b.len(),
    ensures
        dot(a.take(i + 1), b.take(i + 1)) == dot(a.take(i), b.take(i)) + a[i] * b[i],
{
    assert(a.take(i + 1).drop_last() =~= a.take(i));
    assert(b.take(i + 1).drop_last() =~= b.take(i));
}

/// A squared norm is nonnegative.
pub proof fn lemma_sq_norm_nonneg(v: Seq<i64>)
    ensures
        sq_norm(v) >= 0,
    decreases v.len(),
{
    if v.len() == 0 {
    } else {
        lemma_sq_norm_nonneg(v.drop_last());
        assert(v.last() * v.last() >= 0) by (nonlinear_arith);
    }
}

/// A squared norm dominates the square of any single coordinate.
pub proof fn lemma_sq_norm_ge_term(v: Seq<i64>, i: int)
    requires
        0 <= i < v.len(),
    ensures
        sq_norm(v) >= v[i] * v[i],
    decreases v.len(),
{
    if i == v.len() - 1 {
        lemma_sq_norm_nonneg(v.drop_last());
    } else {
        lemma_sq_norm_ge_term(v.drop_last(), i);
        assert(v.last() * v.last() >= 0) by (nonlinear_arith);
    }
}

/// The coordinates of a unit vector are bounded by the scale itself.
pub proof fn lemma_unit_bounded(v: Seq<i64>)
    requires
        is_unit(v),
    ensures
        bounded(v, SCALE as int),
{
    assert forall|i: int| 0 <= i < v.len() implies -SCALE <= #[trigger] v[i] <= SCALE by {
        lemma_sq_norm_ge_term(v, i);
        assert(v[i] * v[i] <= SQ_SCALE + NORM_TOL);
        assert(v[i] > SCALE ==> v[i] * v[i] > SQ_SCALE + NORM_TOL) by (nonlinear_arith);
        assert(v[i] < -SCALE ==> v[i] * v[i] > SQ_SCALE + NORM_TOL) by (nonlinear_arith);
    }
}

/// Exact dot product of two equal-length fixed-point vectors.
pub fn dot_product(vec1: &Vec<i64>, vec2: &Vec<i64>) -> (r: i128)
    requires
        vec1@.len() == vec2@.len(),
        bounded(vec1@, MAX_COORD as int),
        bounded(vec2@, MAX_COORD as int),
    ensures
        r == dot(vec1@, vec2@),
{
    let n = vec1.len();
    let mut acc: i128 = 0;
    let mut i: usize = 0;
    while i < n
        invariant
            0 <= i <= n,
            n == vec1@.len(),
            n == vec2@.len(),
            bounded(vec1@, MAX_COORD as int),
            bounded(vec2@, MAX_COORD as int),
            acc == dot(vec1@.take(i as int), vec2@.take(i as int)),
        decreases n - i,
    {
        proof {
            lemma_dot_take_succ(vec1@, vec2@, i as int);
            assert(bounded(vec1@.take(i as int + 1), MAX_COORD as int));
            assert(bounded(vec2@.take(i as int + 1), MAX_COORD as int));
            lemma_dot_bound(
                vec1@.take(i as int + 1),
                vec2@.take(i as int + 1),
                MAX_COORD as int,
                MAX_COORD as int,
            );
            lemma_mul_bound(
                vec1@[i as int] as int,
                vec2@[i as int] as int,
                MAX_COORD as int,
                MAX_COORD as int,
            );
        }
        let term: i128 = (vec1[i] as i128) * (vec2[i] as i128);
        acc = acc + term;
        i = i + 1;
    }
    proof {
        assert(vec1@.take(n as int) =~= vec1@);
        assert(vec2@.take(n as int) =~= vec2@);
    }
    acc
}

/// Exact normalization check: whether the squared norm is within tolerance
/// of 1.  Total on all inputs: a vector with a coordinate too large for the
/// dot-product arithmetic cannot be a unit vector.
pub fn is_normalized(vector: &Vec<i64>) -> (r: bool)
    ensures
        r == is_unit(vector@),
{
    let n = vector.len();
    let mut i: usize = 0;
    while i < n
        invariant
            0 <= i <= n,
            n == vector@.len(),
            forall|k: int| 0 <= k < i ==> -MAX_COORD <= #[trigger] vector@[k] <= MAX_COORD,
        decreases n - i,
    {
        let c = vector[i];
        if c > MAX_COORD || c < -MAX_COORD {
            proof {
                lemma_sq_norm_ge_term(vector@, i as int);
                assert(vector@[i as int] * vector@[i as int] > SQ_SCALE + NORM_TOL)
                    by (nonlinear_arith)
                    requires
                        vector@[i as int] > MAX_COORD || vector@[i as int] < -MAX_COORD,
                ;
            }
            return false;
        }
        i = i + 1;
    }
    let norm = dot_product(vector, vector);
    SQ_SCALE - NORM_TOL <= norm && norm <= SQ_SCALE + NORM_TOL
}

/// An independent copy of a coordinate vector.
pub fn copy_vector(v: &Vec<i64>) -> (r: Vec<i64>)
    ensures
        r@ == v@,
{
    let n = v.len();
    let mut r: Vec<i64> = Vec::new();
    let mut i: usize = 0;
    while i < n
        invariant
            0 <= i <= n,
            n == v@.len(),
            r@ == v@.take(i as int),
        decreases n - i,
    {
        r.push(v[i]);
        proof {
            assert(v@.take(i as int).push(v@[i as int]) =~= v@.take(i as int + 1));
        }
        i = i + 1;
    }
    proof {
        assert(v@.take(n as int) =~= v@);
    }
    r
}

/// The first vector of `vs` (front to back) whose dot product with `q`
/// reaches `beta`, in fixed-point units.
pub open spec fn first_close(vs: Seq<Seq<i64>>, q: Seq<i64>, beta: int) -> Option<Seq<i64>>
    decreases vs.len(),
{
    if vs.len() == 0 {
        None
    } else if dot(q, vs[0]) >= beta * SCALE {
        Some(vs[0])
    } else {
        first_close(vs.drop_first(), q, beta)
    }
}

/// Scan `vectors` front to back and return a copy of the first one whose
/// dot product with `query` reaches `beta`.
pub fn find_close_vector(query: &Vec<i64>, vectors: &Vec<Vec<i64>>, beta: i64) -> (r: Option<
    Vec<i64>,
>)
    requires
        bounded(query@, MAX_COORD as int),
        all_dim_bounded(views(vectors@), query@.len() as int, MAX_COORD as int),
    ensures
        match r {
            Some(v) => first_close(views(vectors@), query@, beta as int) == Some(v@),
            None => first_close(views(vectors@), query@, beta as int) is None,
        },
{
    let n = vectors.len();
    let mut i: usize = 0;
    proof {
        assert(views(vectors@).skip(0) =~= views(vectors@));
    }
    while i < n
        invariant
            0 <= i <= n,
            n == vectors@.len(),
            bounded(query@, MAX_COORD as int),
            all_dim_bounded(views(vectors@), query@.len() as int, MAX_COORD as int),
            first_close(views(vectors@), query@, beta as int) == first_close(
                views(vectors@).skip(i as int),
                query@,
                beta as int,
            ),
        decreases n - i,
    {
        let d = dot_product(query, &vectors[i]);
        proof {
            assert(views(vectors@).skip(i as int)[0] == vectors@[i as int]@);
        }
        if d >= (beta as i128) * (SCALE as i128) {
            return Some(copy_vector(&vectors[i]));
        }
        proof {
            assert(views(vectors@).skip(i as int).drop_first() =~= views(vectors@).skip(
                i as int + 1,
            ));
        }
        i = i + 1;
    }
    proof {
        assert(views(vectors@).skip(n as int) =~= Seq::<Seq<i64>>::empty());
    }
    None
}

} // verus!
