//! The tensor-amplified index: `t` independent base indices over the
//! same dataset, composed through the Cartesian product of their bucket
//! labels.  A composite key is the ordered tuple of the per-substructure
//! labels of one point.

use crate::bucket_table::{
    assigned_lookup, build_table, copy_label, label_views, opt_label_view, table_dims, BucketTable,
};
use crate::checks::{input_fault, valid_input, ValidationError};
use crate::query::{probe_all, probe_label, qualifying, stored_in, QueryError};
use crate::top1::{
    argmax_label, is_argmax, lemma_argmax_is_argmax, lemma_argmax_unique, Top1,
};
use crate::utils::{
    all_bounded, all_dim_bounded, bounded, dot, find_close_vector, is_normalized, is_unit,
    lemma_unit_bounded, views, MAX_COORD, SCALE,
};
use vstd::prelude::*;

verus! {

/// The composite labels obtained by extending each prefix, in order, with
/// each label of `set`, in order.
pub open spec fn extend_all(prefixes: Seq<Seq<u64>>, set: Seq<u64>) -> Seq<Seq<u64>>
    decreases prefixes.len(),
{
    if prefixes.len() == 0 {
        Seq::empty()
    } else {
        extend_all(prefixes.drop_last(), set) + set.map_values(
            |l: u64| prefixes.last().push(l),
        )
    }
}

/// The Cartesian product of a family of label sets, as composite labels:
/// prefix-major order, one tuple per combination.  The empty family has
/// the single empty tuple.
pub open spec fn cart(sets: Seq<Seq<u64>>) -> Seq<Seq<u64>>
    decreases sets.len(),
{
    if sets.len() == 0 {
        seq![Seq::<u64>::empty()]
    } else {
        extend_all(cart(sets.drop_last()), sets.last())
    }
}

/// The product of the sizes of the label sets.
pub open spec fn prod_lens(sets: Seq<Seq<u64>>) -> int
    decreases sets.len(),
{
    if sets.len() == 0 {
        1
    } else {
        prod_lens(sets.drop_last()) * sets.last().len()
    }
}

proof fn lemma_extend_all_len(prefixes: Seq<Seq<u64>>, set: Seq<u64>)
    ensures
        extend_all(prefixes, set).len() == prefixes.len() * set.len(),
    decreases prefixes.len(),
{
    if prefixes.len() > 0 {
        lemma_extend_all_len(prefixes.drop_last(), set);
        assert((prefixes.len() - 1) * set.len() + set.len() == prefixes.len() * set.len())
            by (nonlinear_arith);
    }
}

/// The Cartesian product has exactly one tuple per combination: its size
/// is the product of the set sizes.
pub proof fn lemma_cart_len(sets: Seq<Seq<u64>>)
    ensures
        cart(sets).len() == prod_lens(sets),
    decreases sets.len(),
{
    if sets.len() > 0 {
        lemma_cart_len(sets.drop_last());
        lemma_extend_all_len(cart(sets.drop_last()), sets.last());
    }
}

/// The absorbing empty-set law: a family containing an empty label set
/// has an empty Cartesian product.
pub proof fn lemma_cart_empty_absorbs(sets: Seq<Seq<u64>>, i: int)
    requires
        0 <= i < sets.len(),
        sets[i].len() == 0,
    ensures
        cart(sets).len() == 0,
    decreases sets.len(),
{
    lemma_cart_len(sets);
    lemma_prod_lens_zero(sets, i);
}

proof fn lemma_prod_lens_zero(sets: Seq<Seq<u64>>, i: int)
    requires
        0 <= i < sets.len(),
        sets[i].len() == 0,
    ensures
        prod_lens(sets) == 0,
    decreases sets.len(),
{
    if i == sets.len() - 1 {
        assert(prod_lens(sets.drop_last()) * 0 == 0) by (nonlinear_arith);
    } else {
        lemma_prod_lens_zero(sets.drop_last(), i);
        assert(0 * sets.last().len() == 0) by (nonlinear_arith);
    }
}

/// Compute the Cartesian product of a collection of label sets, as the
/// fold of the prefix-extension step; an empty collection yields no
/// composite label at all.
pub fn cartesian_product(collection: &Vec<Vec<u64>>) -> (r: Vec<Vec<u64>>)
    ensures
        collection@.len() == 0 ==> r@.len() == 0,
        collection@.len() > 0 ==> label_views(r@) == cart(label_views(collection@)),
{
    let ghost sets = label_views(collection@);
    if collection.len() == 0 {
        return Vec::new();
    }
    let mut acc: Vec<Vec<u64>> = Vec::new();
    acc.push(Vec::new());
    proof {
        assert(label_views(acc@) =~= cart(sets.take(0)));
    }
    let t = collection.len();
    let mut s: usize = 0;
    while s < t
        invariant
            0 <= s <= t,
            t == collection@.len(),
            sets == label_views(collection@),
            label_views(acc@) == cart(sets.take(s as int)),
        decreases t - s,
    {
        let ghost prefixes = label_views(acc@);
        let ghost set = sets[s as int];
        proof {
            assert(set == collection@[s as int]@);
        }
        let mut next: Vec<Vec<u64>> = Vec::new();
        let np = acc.len();
        let mut p: usize = 0;
        proof {
            assert(label_views(next@) =~= extend_all(prefixes.take(0), set));
        }
        while p < np
            invariant
                0 <= p <= np,
                np == acc@.len(),
                prefixes == label_views(acc@),
                set == collection@[s as int]@,
                s < t,
                t == collection@.len(),
                label_views(next@) == extend_all(prefixes.take(p as int), set),
            decreases np - p,
        {
            let ghost prefix = prefixes[p as int];
            proof {
                assert(prefix == acc@[p as int]@);
            }
            let nl = collection[s].len();
            let mut l: usize = 0;
            while l < nl
                invariant
                    0 <= l <= nl,
                    p < np,
                    np == acc@.len(),
                    nl == collection@[s as int]@.len(),
                    s < t,
                    t == collection@.len(),
                    prefix == acc@[p as int]@,
                    prefixes == label_views(acc@),
                    set == collection@[s as int]@,
                    label_views(next@) == extend_all(prefixes.take(p as int), set) + set.take(
                        l as int,
                    ).map_values(|lab: u64| prefix.push(lab)),
                decreases nl - l,
            {
                let mut nk = crate::bucket_table::copy_label(&acc[p]);
                nk.push(collection[s][l]);
                let ghost before_push = next@;
                next.push(nk);
                proof {
                    assert(nk@ == prefix.push(set[l as int]));
                    assert(label_views(next@) =~= label_views(before_push).push(nk@));
                    assert(set.take(l as int + 1).map_values(|lab: u64| prefix.push(lab))
                        =~= set.take(l as int).map_values(|lab: u64| prefix.push(lab)).push(
                        prefix.push(set[l as int]),
                    ));
                    assert(label_views(before_push).push(nk@) =~= extend_all(
                        prefixes.take(p as int),
                        set,
                    ) + set.take(l as int + 1).map_values(|lab: u64| prefix.push(lab)));
                }
                l = l + 1;
            }
            proof {
                assert(set.take(nl as int) =~= set);
                assert(prefixes.take(p as int + 1).drop_last() =~= prefixes.take(p as int));
                assert(prefixes.take(p as int + 1).last() == prefix);
                assert(extend_all(prefixes.take(p as int + 1), set) == extend_all(
                    prefixes.take(p as int),
                    set,
                ) + set.map_values(|lab: u64| prefix.push(lab)));
            }
            p = p + 1;
        }
        proof {
            assert(prefixes.take(np as int) =~= prefixes);
            assert(sets.take(s as int + 1).drop_last() =~= sets.take(s as int));
            assert(sets.take(s as int + 1).last() == set);
            assert(cart(sets.take(s as int + 1)) == extend_all(cart(sets.take(s as int)), set));
        }
        acc = next;
        s = s + 1;
    }
    proof {
        assert(sets.take(t as int) =~= sets);
    }
    acc
}

/// The direction sets of a family of base indices.
pub open spec fn sub_dir_sets(subs: Seq<Top1>) -> Seq<Seq<Seq<i64>>> {
    subs.map_values(|t: Top1| t.dirs())
}

/// The composite assignment: the ordered tuple of the per-substructure
/// argmax labels of one point.
pub open spec fn composite_key_of(dir_sets: Seq<Seq<Seq<i64>>>) -> spec_fn(Seq<i64>) -> Option<
    Seq<u64>,
> {
    |p: Seq<i64>| Some(Seq::new(dir_sets.len(), |j: int| argmax_label(dir_sets[j], p) as u64))
}

/// The candidate label set each substructure yields for a query.
pub open spec fn sub_label_sets(subs: Seq<Top1>, q: Seq<i64>) -> Seq<Seq<u64>> {
    subs.map_values(|t: Top1| qualifying(t.dirs(), q, t.threshold as int))
}

/// The outcome a tensor query is specified to produce: the candidate
/// composite keys are the Cartesian product of the per-substructure label
/// sets, probed in product order.
pub open spec fn tensor_query_outcome(
    subs: Seq<Top1>,
    table: BucketTable,
    beta: i64,
    q: Seq<i64>,
) -> Result<Option<Seq<i64>>, QueryError> {
    if !is_unit(q) {
        Err(QueryError::InvalidQuery)
    } else {
        Ok(probe_all(table, cart(sub_label_sets(subs, q)), q, beta as int))
    }
}

/// One base index as the tensor construction leaves it: well-formed over
/// the given direction set, with the given parameters, and with the
/// arg-max match list over the whole dataset.
pub open spec fn sub_built(
    t: Top1,
    dirs: Vec<Vec<i64>>,
    data: Seq<Seq<i64>>,
    alpha: i64,
    beta: i64,
    threshold: i64,
    d: int,
) -> bool {
    &&& t.wf()
    &&& t.dirs() == views(dirs@)
    &&& t.dim() == d
    &&& t.alpha == alpha
    &&& t.beta == beta
    &&& t.threshold == threshold
    &&& t.match_list@.len() == data.len()
    &&& forall|i: int|
        0 <= i < data.len() ==> is_argmax(t.dirs(), data[i], (#[trigger] t.match_list@[i]) as int)
}

/// Every direction set of the family is non-empty, of dimension `d`,
/// with bounded coordinates.
pub open spec fn dir_sets_wf(sets: Seq<Vec<Vec<i64>>>, d: int) -> bool {
    forall|j: int|
        0 <= j < sets.len() ==> (#[trigger] sets[j])@.len() >= 1 && all_dim_bounded(
            views(sets[j]@),
            d,
            MAX_COORD as int,
        )
}

/// The dimension of the first direction of the first set.
pub open spec fn dir_sets_dim(sets: Seq<Vec<Vec<i64>>>) -> int {
    views(sets[0]@)[0].len() as int
}

/// The tensor-amplified index: `t` independent argmax base indices over
/// the same dataset, and one composite bucket table keyed by the tuple of
/// per-substructure labels.
pub struct TensorTop1 {
    /// The base indices, in composite-key order.
    pub top1_list: Vec<Top1>,
    /// The composite bucket table.
    pub hash_table: BucketTable,
    /// Fixed-point rendering of the similarity parameter `alpha`.
    pub alpha: i64,
    /// Fixed-point rendering of the minimum acceptable similarity `beta`.
    pub beta: i64,
}

impl TensorTop1 {
    /// The dimension the index is fixed to.
    pub open spec fn dim(self) -> int {
        self.top1_list@[0].dim()
    }

    /// Structural invariant: at least one well-formed substructure, all
    /// of one dimension, and a well-formed composite table of vectors of
    /// that dimension.
    pub open spec fn wf(self) -> bool {
        &&& self.top1_list@.len() >= 1
        &&& forall|j: int|
            0 <= j < self.top1_list@.len() ==> (#[trigger] self.top1_list@[j]).wf()
                && self.top1_list@[j].dim() == self.dim()
        &&& self.hash_table.wf()
        &&& table_dims(self.hash_table, self.dim())
        &&& 0 < self.beta < self.alpha < SCALE
    }

    /// Build the index: validate the input once, build one argmax base
    /// index per direction set over the same data, then key every data
    /// vector by the tuple of its per-substructure labels.  The number of
    /// sets, the directions and the threshold come from the caller's
    /// collaborators.
    pub fn new(
        data: &Vec<Vec<i64>>,
        direction_sets: Vec<Vec<Vec<i64>>>,
        alpha: i64,
        beta: i64,
        theta: i64,
        threshold: i64,
    ) -> (r: Result<TensorTop1, ValidationError>)
        requires
            all_bounded(views(data@), MAX_COORD as int),
            direction_sets@.len() >= 1,
            dir_sets_dim(direction_sets@) >= 1,
            dir_sets_wf(direction_sets@, dir_sets_dim(direction_sets@)),
            data@.len() > 0 ==> dir_sets_dim(direction_sets@) == views(data@)[0].len(),
        ensures
            match r {
                Ok(t) => {
                    &&& valid_input(views(data@), alpha, beta, theta)
                    &&& t.wf()
                    &&& t.alpha == alpha
                    &&& t.beta == beta
                    &&& t.top1_list@.len() == direction_sets@.len()
                    &&& forall|j: int|
                        0 <= j < direction_sets@.len() ==> (#[trigger] t.top1_list@[j]).dirs()
                            == views(direction_sets@[j]@) && t.top1_list@[j].threshold == threshold
                    &&& forall|k: Seq<u64>|
                        t.hash_table.lookup(k) == assigned_lookup(
                            views(data@),
                            composite_key_of(sub_dir_sets(t.top1_list@)),
                            k,
                        )
                    &&& t.hash_table.total_count() == data@.len()
                },
                Err(e) => input_fault(views(data@), alpha, beta, theta) == Some(e),
            },
    {
        let ghost all_sets = direction_sets@;
        let ghost d = dir_sets_dim(all_sets);
        let ghost dv = views(data@);
        let t_total = direction_sets.len();
        let mut sets = direction_sets;
        let mut top1_list: Vec<Top1> = Vec::new();
        let mut j: usize = 0;
        while j < t_total
            invariant
                0 <= j <= t_total,
                t_total == all_sets.len(),
                t_total >= 1,
                d == dir_sets_dim(all_sets),
                d >= 1,
                dv == views(data@),
                sets@ == all_sets.skip(j as int),
                all_bounded(dv, MAX_COORD as int),
                dir_sets_wf(all_sets, d),
                data@.len() > 0 ==> d == dv[0].len(),
                top1_list@.len() == j,
                forall|jj: int|
                    0 <= jj < j ==> sub_built(
                        #[trigger] top1_list@[jj],
                        all_sets[jj],
                        dv,
                        alpha,
                        beta,
                        threshold,
                        d,
                    ),
                j > 0 ==> valid_input(dv, alpha, beta, theta),
            decreases t_total - j,
        {
            proof {
                assert(sets@[0] == all_sets[j as int]);
                assert(all_dim_bounded(views(all_sets[j as int]@), d, MAX_COORD as int));
                assert(views(all_sets[j as int]@)[0].len() == d);
            }
            let dirs_j = sets.remove(0);
            match crate::top1::Top1::new(data, dirs_j, alpha, beta, theta, threshold) {
                Ok(t1) => {
                    top1_list.push(t1);
                },
                Err(e) => {
                    return Err(e);
                },
            }
            proof {
                assert(sets@ =~= all_sets.skip(j as int + 1));
            }
            j = j + 1;
        }
        let ghost key_of = composite_key_of(sub_dir_sets(top1_list@));
        proof {
            assert forall|i: int| 0 <= i < dv.len() implies (#[trigger] dv[i]).len() == d
                && bounded(dv[i], MAX_COORD as int) by {
                assert(dv[i] == data@[i]@);
                assert(dv[0] == data@[0]@);
                lemma_unit_bounded(dv[i]);
            }
        }
        let n = data.len();
        let t_cnt = top1_list.len();
        let mut keys: Vec<Option<Vec<u64>>> = Vec::new();
        let mut i: usize = 0;
        while i < n
            invariant
                0 <= i <= n,
                n == data@.len(),
                dv == views(data@),
                t_cnt == top1_list@.len(),
                t_cnt >= 1,
                key_of == composite_key_of(sub_dir_sets(top1_list@)),
                forall|jj: int|
                    0 <= jj < t_cnt ==> sub_built(
                        #[trigger] top1_list@[jj],
                        all_sets[jj],
                        dv,
                        alpha,
                        beta,
                        threshold,
                        d,
                    ),
                keys@.len() == i,
                forall|ii: int|
                    0 <= ii < i ==> opt_label_view(#[trigger] keys@[ii]) == key_of(dv[ii]),
            decreases n - i,
        {
            let mut key: Vec<u64> = Vec::new();
            let mut jj: usize = 0;
            while jj < t_cnt
                invariant
                    0 <= jj <= t_cnt,
                    i < n,
                    n == data@.len(),
                    dv == views(data@),
                    t_cnt == top1_list@.len(),
                    forall|x: int|
                        0 <= x < t_cnt ==> sub_built(
                            #[trigger] top1_list@[x],
                            all_sets[x],
                            dv,
                            alpha,
                            beta,
                            threshold,
                            d,
                        ),
                    key@.len() == jj,
                    forall|x: int|
                        0 <= x < jj ==> (#[trigger] key@[x]) as int == argmax_label(
                            sub_dir_sets(top1_list@)[x],
                            dv[i as int],
                        ),
                decreases t_cnt - jj,
            {
                let label = top1_list[jj].hash(i);
                proof {
                    let t1 = top1_list@[jj as int];
                    assert(is_argmax(t1.dirs(), dv[i as int], t1.match_list@[i as int] as int));
                    lemma_argmax_is_argmax(t1.dirs(), dv[i as int]);
                    lemma_argmax_unique(
                        t1.dirs(),
                        dv[i as int],
                        t1.match_list@[i as int] as int,
                        argmax_label(t1.dirs(), dv[i as int]),
                    );
                    assert(sub_dir_sets(top1_list@)[jj as int] == t1.dirs());
                }
                key.push(label);
                jj = jj + 1;
            }
            proof {
                assert(key@ =~= key_of(dv[i as int]).unwrap());
            }
            keys.push(Some(key));
            i = i + 1;
        }
        let hash_table = build_table(data, &keys, Ghost(key_of), Ghost(d));
        proof {
            crate::top1::lemma_assigned_count_all(dv, key_of, dv.len() as int);
        }
        Ok(TensorTop1 { top1_list, hash_table, alpha, beta })
    }

    /// Given a query `q`, return a close point according to dot product,
    /// probing the composite buckets of the Cartesian product of the
    /// per-substructure candidate label sets.  The ensured outcome is a
    /// function of the frozen index and the query alone, so repeated
    /// queries with the same vector return the same outcome.
    pub fn query(&self, q: &Vec<i64>) -> (r: Result<Option<Vec<i64>>, QueryError>)
        requires
            self.wf(),
            q@.len() == self.dim(),
        ensures
            match r {
                Ok(Some(v)) => tensor_query_outcome(self.top1_list@, self.hash_table, self.beta, q@)
                    == Ok::<Option<Seq<i64>>, QueryError>(Some(v@)) && dot(q@, v@) >= self.beta
                    * SCALE && stored_in(self.hash_table, v@),
                Ok(None) => tensor_query_outcome(self.top1_list@, self.hash_table, self.beta, q@)
                    == Ok::<Option<Seq<i64>>, QueryError>(None),
                Err(e) => !is_unit(q@) && e == QueryError::InvalidQuery,
            },
            (is_unit(q@) && exists|j: int|
                0 <= j < self.top1_list@.len() && (#[trigger] sub_label_sets(
                    self.top1_list@,
                    q@,
                )[j]).len() == 0) ==> r == Ok::<Option<Vec<i64>>, QueryError>(None),
    {
        query(q, &self.top1_list, &self.hash_table, self.beta)
    }
}

/// Query the composite table for a close vector to `q`: an error off the
/// unit sphere; nothing as soon as any substructure yields no candidate
/// label; otherwise the first vector meeting `beta` among the composite
/// buckets of the Cartesian product, probed in product order.
pub fn query(
    q: &Vec<i64>,
    top1_list: &Vec<Top1>,
    hash_table: &BucketTable,
    beta: i64,
) -> (r: Result<Option<Vec<i64>>, QueryError>)
    requires
        top1_list@.len() >= 1,
        forall|j: int|
            0 <= j < top1_list@.len() ==> (#[trigger] top1_list@[j]).wf() && top1_list@[j].dim()
                == q@.len(),
        hash_table.wf(),
        table_dims(*hash_table, q@.len() as int),
    ensures
        match r {
            Ok(Some(v)) => tensor_query_outcome(top1_list@, *hash_table, beta, q@) == Ok::<
                Option<Seq<i64>>,
                QueryError,
            >(Some(v@)) && dot(q@, v@) >= beta * SCALE && stored_in(*hash_table, v@),
            Ok(None) => tensor_query_outcome(top1_list@, *hash_table, beta, q@) == Ok::<
                Option<Seq<i64>>,
                QueryError,
            >(None),
            Err(e) => !is_unit(q@) && e == QueryError::InvalidQuery,
        },
        (is_unit(q@) && exists|j: int|
            0 <= j < top1_list@.len() && (#[trigger] sub_label_sets(top1_list@, q@)[j]).len()
                == 0) ==> r == Ok::<Option<Vec<i64>>, QueryError>(None),
{
    if !is_normalized(q) {
        return Err(QueryError::InvalidQuery);
    }
    proof {
        lemma_unit_bounded(q@);
    }
    let ghost sls = sub_label_sets(top1_list@, q@);
    let t = top1_list.len();
    let mut collection: Vec<Vec<u64>> = Vec::new();
    let mut any_empty = false;
    let mut j: usize = 0;
    while j < t
        invariant
            0 <= j <= t,
            t == top1_list@.len(),
            sls == sub_label_sets(top1_list@, q@),
            is_unit(q@),
            bounded(q@, MAX_COORD as int),
            forall|x: int|
                0 <= x < t ==> (#[trigger] top1_list@[x]).wf() && top1_list@[x].dim() == q@.len(),
            collection@.len() == j,
            forall|x: int| 0 <= x < j ==> (#[trigger] collection@[x])@ == sls[x],
            any_empty == exists|x: int| 0 <= x < j && (#[trigger] sls[x]).len() == 0,
        decreases t - j,
    {
        let labels = top1_list[j].search(q);
        proof {
            assert(sls[j as int] == qualifying(
                top1_list@[j as int].dirs(),
                q@,
                top1_list@[j as int].threshold as int,
            ));
        }
        if labels.len() == 0 {
            any_empty = true;
            proof {
                assert(sls[j as int].len() == 0);
            }
        }
        collection.push(labels);
        j = j + 1;
    }
    if any_empty {
        proof {
            let x = choose|x: int| 0 <= x < t && (#[trigger] sls[x]).len() == 0;
            lemma_cart_empty_absorbs(sls, x);
        }
        return Ok(None);
    }
    let keys = cartesian_product(&collection);
    let ghost cartset = cart(sls);
    proof {
        assert(label_views(collection@) =~= sls);
        assert(label_views(keys@) == cartset);
        assert(cartset.skip(0) =~= cartset);
    }
    let nk = keys.len();
    let mut i: usize = 0;
    while i < nk
        invariant
            0 <= i <= nk,
            nk == keys@.len(),
            sls == sub_label_sets(top1_list@, q@),
            cartset == cart(sls),
            label_views(keys@) == cartset,
            is_unit(q@),
            bounded(q@, MAX_COORD as int),
            hash_table.wf(),
            table_dims(*hash_table, q@.len() as int),
            probe_all(*hash_table, cartset, q@, beta as int) == probe_all(
                *hash_table,
                cartset.skip(i as int),
                q@,
                beta as int,
            ),
        decreases nk - i,
    {
        proof {
            assert(keys@[i as int]@ == cartset[i as int]);
            assert(cartset.skip(i as int)[0] == cartset[i as int]);
        }
        match hash_table.get(&keys[i]) {
            Some(vectors) => {
                match find_close_vector(q, vectors, beta) {
                    Some(v) => {
                        proof {
                            assert(probe_label(*hash_table, cartset[i as int], q@, beta as int)
                                == Some(v@));
                            assert(probe_all(
                                *hash_table,
                                cartset.skip(i as int),
                                q@,
                                beta as int,
                            ) == Some(v@));
                            crate::query::lemma_probe_all_sound(
                                *hash_table,
                                cartset,
                                q@,
                                beta as int,
                            );
                            if exists|x: int|
                                0 <= x < top1_list@.len() && (#[trigger] sls[x]).len() == 0 {
                                let x = choose|x: int|
                                    0 <= x < top1_list@.len() && (#[trigger] sls[x]).len() == 0;
                                lemma_cart_empty_absorbs(sls, x);
                            }
                        }
                        return Ok(Some(v));
                    },
                    None => {},
                }
            },
            None => {},
        }
        proof {
            assert(cartset.skip(i as int).drop_first() =~= cartset.skip(i as int + 1));
        }
        i = i + 1;
    }
    proof {
        assert(cartset.skip(nk as int) =~= Seq::<Seq<u64>>::empty());
    }
    Ok(None)
}

} // verus!
