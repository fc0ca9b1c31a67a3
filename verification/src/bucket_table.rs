//! The bucket table: an immutable-after-construction multimap from a
//! composite bucket label to the vectors assigned to it.
//!
//! A label is an ordered tuple of per-substructure direction indices,
//! held as a `Vec<u64>`; the base index uses one-element labels.  The
//! table is an association list whose keys are pairwise distinct and
//! whose buckets keep insertion order, which is the only tie-break the
//! search uses.

use crate::utils::{all_dim_bounded, copy_vector, views, MAX_COORD};
use vstd::prelude::*;

verus! {

/// The views of a sequence of labels.
pub open spec fn label_views(s: Seq<Vec<u64>>) -> Seq<Seq<u64>> {
    s.map_values(|v: Vec<u64>| v@)
}

/// Total number of vectors held across a sequence of buckets.
pub open spec fn sum_lens(bs: Seq<Vec<Vec<i64>>>) -> int
    decreases bs.len(),
{
    if bs.len() == 0 {
        0
    } else {
        sum_lens(bs.drop_last()) + bs.last()@.len()
    }
}

proof fn lemma_sum_lens_push(bs: Seq<Vec<Vec<i64>>>, b: Vec<Vec<i64>>)
    ensures
        sum_lens(bs.push(b)) == sum_lens(bs) + b@.len(),
{
    assert(bs.push(b).drop_last() =~= bs);
}

proof fn lemma_sum_lens_update(bs: Seq<Vec<Vec<i64>>>, i: int, b: Vec<Vec<i64>>)
    requires
        0 <= i < bs.len(),
    ensures
        sum_lens(bs.update(i, b)) == sum_lens(bs) - bs[i]@.len() + b@.len(),
    decreases bs.len(),
{
    if i == bs.len() - 1 {
        assert(bs.update(i, b).drop_last() =~= bs.drop_last());
        assert(bs.update(i, b).last() == b);
    } else {
        assert(bs.update(i, b).drop_last() =~= bs.drop_last().update(i, b));
        assert(bs.update(i, b).last() == bs.last());
        lemma_sum_lens_update(bs.drop_last(), i, b);
    }
}

/// Whether two labels hold the same indices.
fn labels_eq(a: &Vec<u64>, b: &Vec<u64>) -> (r: bool)
    ensures
        r == (a@ == b@),
{
    if a.len() != b.len() {
        return false;
    }
    let n = a.len();
    let mut i: usize = 0;
    while i < n
        invariant
            0 <= i <= n,
            n == a@.len(),
            n == b@.len(),
            forall|j: int| 0 <= j < i ==> a@[j] == b@[j],
        decreases n - i,
    {
        if a[i] != b[i] {
            return false;
        }
        i = i + 1;
    }
    proof {
        assert(a@ =~= b@);
    }
    true
}

/// An independent copy of a label.
pub(crate) fn copy_label(v: &Vec<u64>) -> (r: Vec<u64>)
    ensures
        r@ == v@,
{
    let n = v.len();
    let mut r: Vec<u64> = Vec::new();
    let mut i: usize = 0;
    while i < n
        invariant
            0 <= i <= n,
            n == v@.len(),
            r@ == v@.take(i as int),
        decreases n - i,
    {
        r.push(v[i]);
        proof {
            assert(v@.take(i as int).push(v@[i as int]) =~= v@.take(i as int + 1));
        }
        i = i + 1;
    }
    proof {
        assert(v@.take(n as int) =~= v@);
    }
    r
}

/// The view of an optional label.
pub open spec fn opt_label_view(o: Option<Vec<u64>>) -> Option<Seq<u64>> {
    match o {
        Some(v) => Some(v@),
        None => None,
    }
}

/// The bucket a label `k` accumulates over the first `n` points of `data`,
/// under a per-point assignment `key_of` (`None` assigns the point to no
/// bucket at all).
pub open spec fn assigned_bucket_upto(
    data: Seq<Seq<i64>>,
    key_of: spec_fn(Seq<i64>) -> Option<Seq<u64>>,
    k: Seq<u64>,
    n: int,
) -> Seq<Seq<i64>>
    decreases n,
{
    if n <= 0 {
        Seq::empty()
    } else {
        let rest = assigned_bucket_upto(data, key_of, k, n - 1);
        if key_of(data[n - 1]) == Some(k) {
            rest.push(data[n - 1])
        } else {
            rest
        }
    }
}

/// The table entry a label `k` holds after the first `n` points: absent
/// exactly when no point was assigned to it.
pub open spec fn assigned_lookup_upto(
    data: Seq<Seq<i64>>,
    key_of: spec_fn(Seq<i64>) -> Option<Seq<u64>>,
    k: Seq<u64>,
    n: int,
) -> Option<Seq<Seq<i64>>> {
    if assigned_bucket_upto(data, key_of, k, n).len() == 0 {
        None
    } else {
        Some(assigned_bucket_upto(data, key_of, k, n))
    }
}

/// The table entry a label `k` holds once all points are assigned.
pub open spec fn assigned_lookup(
    data: Seq<Seq<i64>>,
    key_of: spec_fn(Seq<i64>) -> Option<Seq<u64>>,
    k: Seq<u64>,
) -> Option<Seq<Seq<i64>>> {
    assigned_lookup_upto(data, key_of, k, data.len() as int)
}

/// How many of the first `n` points are assigned to some bucket.
pub open spec fn assigned_count_upto(
    data: Seq<Seq<i64>>,
    key_of: spec_fn(Seq<i64>) -> Option<Seq<u64>>,
    n: int,
) -> int
    decreases n,
{
    if n <= 0 {
        0
    } else {
        assigned_count_upto(data, key_of, n - 1) + if key_of(data[n - 1]) is Some {
            1int
        } else {
            0int
        }
    }
}

/// How many points are assigned to some bucket at all.
pub open spec fn assigned_count(
    data: Seq<Seq<i64>>,
    key_of: spec_fn(Seq<i64>) -> Option<Seq<u64>>,
) -> int {
    assigned_count_upto(data, key_of, data.len() as int)
}

/// Every vector a bucket accumulates is a data vector, taken at a source
/// index whose assignment is exactly that bucket's label.
pub proof fn lemma_assigned_bucket_from_data(
    data: Seq<Seq<i64>>,
    key_of: spec_fn(Seq<i64>) -> Option<Seq<u64>>,
    k: Seq<u64>,
    n: int,
    x: int,
)
    requires
        0 <= n <= data.len(),
        0 <= x < assigned_bucket_upto(data, key_of, k, n).len(),
    ensures
        exists|i: int|
            0 <= i < n && #[trigger] data[i] == assigned_bucket_upto(data, key_of, k, n)[x]
                && key_of(data[i]) == Some(k),
    decreases n,
{
    if n > 0 {
        let b = assigned_bucket_upto(data, key_of, k, n);
        let rest = assigned_bucket_upto(data, key_of, k, n - 1);
        if key_of(data[n - 1]) == Some(k) && x == b.len() - 1 {
            assert(b[x] == data[n - 1]);
        } else {
            lemma_assigned_bucket_from_data(data, key_of, k, n - 1, x);
            let i = choose|i: int|
                0 <= i < n - 1 && #[trigger] data[i] == rest[x] && key_of(data[i]) == Some(k);
            assert(data[i] == b[x] && key_of(data[i]) == Some(k));
        }
    }
}

/// Every bucket of the table holds vectors of dimension `d` with bounded
/// coordinates.
pub open spec fn table_dims(table: BucketTable, d: int) -> bool {
    forall|k: Seq<u64>|
        (#[trigger] table.lookup(k)) is Some ==> all_dim_bounded(
            table.lookup(k).unwrap(),
            d,
            MAX_COORD as int,
        )
}

/// Multimap from a bucket label to the vectors assigned to it, with
/// pairwise-distinct keys and insertion-ordered buckets.
pub struct BucketTable {
    /// The labels, one per non-empty bucket, in first-insertion order.
    pub keys: Vec<Vec<u64>>,
    /// The bucket of each label, at the same position as the label.
    pub buckets: Vec<Vec<Vec<i64>>>,
}

impl BucketTable {
    /// Keys and buckets run in parallel and the keys are pairwise distinct.
    pub open spec fn wf(self) -> bool {
        &&& self.keys@.len() == self.buckets@.len()
        &&& forall|i: int, j: int|
            0 <= i < j < self.keys@.len() ==> (#[trigger] self.keys@[i])@ != (
            #[trigger] self.keys@[j])@
    }

    /// Number of non-empty buckets.
    pub open spec fn num_keys(self) -> nat {
        self.keys@.len()
    }

    /// Whether some bucket carries the label `k`.
    pub open spec fn has_key(self, k: Seq<u64>) -> bool {
        exists|i: int| 0 <= i < self.keys@.len() && (#[trigger] self.keys@[i])@ == k
    }

    /// The position of the bucket labelled `k` (meaningful when `has_key`).
    pub open spec fn key_index(self, k: Seq<u64>) -> int {
        choose|i: int| 0 <= i < self.keys@.len() && (#[trigger] self.keys@[i])@ == k
    }

    /// The contents of the bucket labelled `k` (meaningful when `has_key`).
    pub open spec fn bucket_view(self, k: Seq<u64>) -> Seq<Seq<i64>> {
        views(self.buckets@[self.key_index(k)]@)
    }

    /// The contents of the bucket labelled `k`, or `None` when no vector
    /// was assigned there.
    pub open spec fn lookup(self, k: Seq<u64>) -> Option<Seq<Seq<i64>>> {
        if self.has_key(k) {
            Some(self.bucket_view(k))
        } else {
            None
        }
    }

    /// Total number of vectors held in the table.
    pub open spec fn total_count(self) -> int {
        sum_lens(self.buckets@)
    }

    /// The position of a present key is in range, carries the key, and is
    /// the only such position.
    pub proof fn lemma_key_index(self, k: Seq<u64>)
        requires
            self.wf(),
            self.has_key(k),
        ensures
            0 <= self.key_index(k) < self.keys@.len(),
            self.keys@[self.key_index(k)]@ == k,
            forall|j: int|
                0 <= j < self.keys@.len() && (#[trigger] self.keys@[j])@ == k ==> j
                    == self.key_index(k),
    {
        let i = self.key_index(k);
        assert(0 <= i < self.keys@.len() && self.keys@[i]@ == k);
    }

    /// An empty table.
    pub fn new() -> (r: BucketTable)
        ensures
            r.wf(),
            r.num_keys() == 0,
            r.total_count() == 0,
            forall|k: Seq<u64>| !r.has_key(k),
    {
        BucketTable { keys: Vec::new(), buckets: Vec::new() }
    }

    /// Number of non-empty buckets.
    pub fn len(&self) -> (r: usize)
        ensures
            r == self.num_keys(),
    {
        self.keys.len()
    }

    /// The label at a table position.
    pub fn key_at(&self, i: usize) -> (r: &Vec<u64>)
        requires
            i < self.num_keys(),
        ensures
            r@ == self.keys@[i as int]@,
    {
        &self.keys[i]
    }

    /// The bucket at a table position.
    pub fn bucket_at(&self, i: usize) -> (r: &Vec<Vec<i64>>)
        requires
            self.wf(),
            i < self.num_keys(),
        ensures
            r@ == self.buckets@[i as int]@,
    {
        &self.buckets[i]
    }

    /// The table position carrying the label `key`, if any.
    fn position_of(&self, key: &Vec<u64>) -> (r: Option<usize>)
        requires
            self.wf(),
        ensures
            match r {
                Some(i) => self.has_key(key@) && i == self.key_index(key@),
                None => !self.has_key(key@),
            },
    {
        let n = self.keys.len();
        let mut i: usize = 0;
        while i < n
            invariant
                0 <= i <= n,
                n == self.keys@.len(),
                self.wf(),
                forall|j: int| 0 <= j < i ==> (#[trigger] self.keys@[j])@ != key@,
            decreases n - i,
        {
            if labels_eq(&self.keys[i], key) {
                proof {
                    assert(self.has_key(key@));
                    self.lemma_key_index(key@);
                }
                return Some(i);
            }
            i = i + 1;
        }
        None
    }

    /// The bucket labelled `key`, if any vector was assigned there.
    pub fn get(&self, key: &Vec<u64>) -> (r: Option<&Vec<Vec<i64>>>)
        requires
            self.wf(),
        ensures
            match r {
                Some(b) => self.lookup(key@) == Some(views(b@)),
                None => self.lookup(key@) is None,
            },
    {
        match self.position_of(key) {
            Some(i) => {
                proof {
                    self.lemma_key_index(key@);
                }
                Some(&self.buckets[i])
            },
            None => None,
        }
    }

    /// Append `vector` to the bucket labelled `key`, creating the bucket
    /// at the end of the table when the label is new.
    pub fn insert(&mut self, key: &Vec<u64>, vector: Vec<i64>)
        requires
            old(self).wf(),
        ensures
            final(self).wf(),
            final(self).lookup(key@) == Some(
                if old(self).has_key(key@) {
                    old(self).bucket_view(key@).push(vector@)
                } else {
                    seq![vector@]
                },
            ),
            forall|k: Seq<u64>| k != key@ ==> final(self).lookup(k) == old(self).lookup(k),
            final(self).total_count() == old(self).total_count() + 1,
            label_views(final(self).keys@) == (
            if old(self).has_key(key@) {
                label_views(old(self).keys@)
            } else {
                label_views(old(self).keys@).push(key@)
            }),
    {
        match self.position_of(key) {
            Some(i) => {
                proof {
                    old(self).lemma_key_index(key@);
                }
                let mut tmp: Vec<Vec<i64>> = Vec::new();
                self.buckets.set_and_swap(i, &mut tmp);
                tmp.push(vector);
                self.buckets.set_and_swap(i, &mut tmp);
                proof {
                    let o = *old(self);
                    let f = *self;
                    assert(f.buckets@ =~= o.buckets@.update(
                        i as int,
                        f.buckets@[i as int],
                    ));
                    lemma_sum_lens_update(o.buckets@, i as int, f.buckets@[i as int]);
                    assert(f.has_key(key@));
                    f.lemma_key_index(key@);
                    assert(f.key_index(key@) == i);
                    assert(f.buckets@[i as int]@ =~= o.buckets@[i as int]@.push(vector));
                    assert(f.bucket_view(key@) =~= o.bucket_view(key@).push(vector@));
                    assert forall|k: Seq<u64>| k != key@ implies f.lookup(k) == o.lookup(k) by {
                        if o.has_key(k) {
                            o.lemma_key_index(k);
                            assert(f.has_key(k));
                            f.lemma_key_index(k);
                            assert(f.key_index(k) == o.key_index(k));
                            assert(f.key_index(k) != i);
                            assert(f.bucket_view(k) == o.bucket_view(k));
                        } else {
                            assert(!f.has_key(k));
                        }
                    }
                }
            },
            None => {
                let ghost o = *old(self);
                let new_key = copy_label(key);
                let mut b: Vec<Vec<i64>> = Vec::new();
                b.push(vector);
                self.keys.push(new_key);
                self.buckets.push(b);
                proof {
                    let f = *self;
                    let n = o.keys@.len() as int;
                    lemma_sum_lens_push(o.buckets@, f.buckets@.last());
                    assert(f.keys@[n]@ == key@);
                    assert(f.has_key(key@));
                    assert(f.wf()) by {
                        assert(forall|j: int|
                            0 <= j < n ==> (#[trigger] f.keys@[j])@ != key@);
                    }
                    f.lemma_key_index(key@);
                    assert(f.key_index(key@) == n);
                    assert(f.buckets@[n]@ =~= seq![vector]);
                    assert(f.bucket_view(key@) =~= seq![vector@]);
                    assert(label_views(f.keys@) =~= label_views(o.keys@).push(key@));
                    assert forall|k: Seq<u64>| k != key@ implies f.lookup(k) == o.lookup(k) by {
                        if o.has_key(k) {
                            o.lemma_key_index(k);
                            assert(f.keys@[o.key_index(k)]@ == k);
                            assert(f.has_key(k));
                            f.lemma_key_index(k);
                            assert(f.key_index(k) == o.key_index(k));
                            assert(f.bucket_view(k) == o.bucket_view(k));
                        } else {
                            if f.has_key(k) {
                                f.lemma_key_index(k);
                                assert(f.key_index(k) == n);
                                assert(false);
                            }
                        }
                    }
                }
            },
        }
    }
}

/// Build a table by inserting each point, in data order, under its
/// precomputed label; a point with no label is left out of the table.
/// `key_of` names the assignment the labels were computed by.
pub(crate) fn build_table(
    data: &Vec<Vec<i64>>,
    keys: &Vec<Option<Vec<u64>>>,
    Ghost(key_of): Ghost<spec_fn(Seq<i64>) -> Option<Seq<u64>>>,
    Ghost(d): Ghost<int>,
) -> (r: BucketTable)
    requires
        keys@.len() == data@.len(),
        all_dim_bounded(views(data@), d, MAX_COORD as int),
        forall|i: int|
            0 <= i < data@.len() ==> opt_label_view(#[trigger] keys@[i]) == key_of(
                views(data@)[i],
            ),
    ensures
        r.wf(),
        table_dims(r, d),
        forall|k: Seq<u64>| r.lookup(k) == assigned_lookup(views(data@), key_of, k),
        r.total_count() == assigned_count(views(data@), key_of),
{
    let ghost dv = views(data@);
    let n = data.len();
    let mut table = BucketTable::new();
    let mut i: usize = 0;
    while i < n
        invariant
            0 <= i <= n,
            n == data@.len(),
            n == keys@.len(),
            dv == views(data@),
            all_dim_bounded(dv, d, MAX_COORD as int),
            forall|j: int|
                0 <= j < n ==> opt_label_view(#[trigger] keys@[j]) == key_of(views(data@)[j]),
            table.wf(),
            table_dims(table, d),
            forall|k: Seq<u64>| table.lookup(k) == assigned_lookup_upto(dv, key_of, k, i as int),
            table.total_count() == assigned_count_upto(dv, key_of, i as int),
        decreases n - i,
    {
        proof {
            assert(dv[i as int] == data@[i as int]@);
            assert(opt_label_view(keys@[i as int]) == key_of(dv[i as int]));
        }
        match &keys[i] {
            Some(key) => {
                let ghost before = table;
                let v = copy_vector(&data[i]);
                table.insert(key, v);
                proof {
                    assert(key_of(dv[i as int]) == Some(key@));
                    assert forall|k: Seq<u64>| table.lookup(k) == assigned_lookup_upto(
                        dv,
                        key_of,
                        k,
                        i as int + 1,
                    ) by {
                        if k == key@ {
                            if before.has_key(k) {
                                assert(before.lookup(k) == assigned_lookup_upto(
                                    dv,
                                    key_of,
                                    k,
                                    i as int,
                                ));
                                assert(before.bucket_view(k) == assigned_bucket_upto(
                                    dv,
                                    key_of,
                                    k,
                                    i as int,
                                ));
                            } else {
                                assert(assigned_bucket_upto(dv, key_of, k, i as int).len() == 0);
                                assert(assigned_bucket_upto(dv, key_of, k, i as int + 1)
                                    =~= seq![dv[i as int]]);
                            }
                        } else {
                            assert(table.lookup(k) == before.lookup(k));
                        }
                    }
                    assert forall|k: Seq<u64>| (#[trigger] table.lookup(k)) is Some implies
                        all_dim_bounded(table.lookup(k).unwrap(), d, MAX_COORD as int) by {
                        let b = table.lookup(k).unwrap();
                        if k == key@ {
                            assert forall|j: int| 0 <= j < b.len() implies (#[trigger] b[j]).len()
                                == d && crate::utils::bounded(b[j], MAX_COORD as int) by {
                                if j < b.len() - 1 {
                                    assert(before.lookup(k) is Some);
                                    assert(b[j] == before.lookup(k).unwrap()[j]);
                                } else {
                                    assert(b[j] == dv[i as int]);
                                }
                            }
                        } else {
                            assert(table.lookup(k) == before.lookup(k));
                        }
                    }
                }
            },
            None => {
                proof {
                    assert(key_of(dv[i as int]) is None);
                    assert forall|k: Seq<u64>| table.lookup(k) == assigned_lookup_upto(
                        dv,
                        key_of,
                        k,
                        i as int + 1,
                    ) by {
                        assert(key_of(dv[i as int]) != Some(k));
                    }
                }
            },
        }
        i = i + 1;
    }
    table
}

} // verus!
