use vstd::prelude::*;

verus! {

/// The bucket counts at the bottom of the board. Relies on ndarray's `Array1`
/// to hold them; `counts` names what it holds.
#[verifier::external_body]
pub struct Histogram {
    inner: ndarray::Array1<u64>,
}

/// The counts held by a histogram, bucket by bucket.
pub uninterp spec fn counts(h: Histogram) -> Seq<u64>;

impl Histogram {
    /// Relies on ndarray's `Array1::zeros`: an array of `n` zeros.
    #[verifier::external_body]
    pub(crate) fn zeros(n: usize) -> (r: Histogram)
        requires
            n <= isize::MAX,
        ensures
            counts(r) == Seq::new(n as nat, |i: int| 0u64),
    {
        Histogram { inner: ndarray::Array1::<u64>::zeros(n) }
    }

    /// Relies on ndarray's indexing of an `Array1`: the element at `i`.
    #[verifier::external_body]
    pub(crate) fn get(&self, i: usize) -> (r: u64)
        requires
            i < counts(*self).len(),
        ensures
            r == counts(*self)[i as int],
    {
        self.inner[i]
    }

    /// Relies on ndarray's mutable indexing of an `Array1`: only the element at `i` changes.
    #[verifier::external_body]
    pub(crate) fn set(&mut self, i: usize, v: u64)
        requires
            i < counts(*old(self)).len(),
        ensures
            counts(*final(self)) == counts(*old(self)).update(i as int, v),
    {
        self.inner[i] = v;
    }

    /// Relies on ndarray's `Array1::to_vec`: the elements in index order.
    #[verifier::external_body]
    pub(crate) fn to_vec(&self) -> (r: Vec<u64>)
        ensures
            r@ == counts(*self),
    {
        self.inner.to_vec()
    }
}


/// The sum of all counts.
pub open spec fn total(s: Seq<u64>) -> int
    decreases s.len(),
{
    if s.len() == 0 {
        0
    } else {
        total(s.drop_last()) + s.last()
    }
}

/// How many times bucket `j` occurs among the positions `ps`.
pub open spec fn hits(ps: Seq<usize>, j: int) -> nat
    decreases ps.len(),
{
    if ps.len() == 0 {
        0
    } else {
        hits(ps.drop_last(), j) + if ps.last() == j {
            1nat
        } else {
            0nat
        }
    }
}

/// No single count exceeds the sum of all counts.
pub proof fn lemma_count_le_total(s: Seq<u64>, i: int)
    requires
        0 <= i < s.len(),
    ensures
        s[i] <= total(s),
    decreases s.len(),
{
    if i < s.len() - 1 {
        lemma_count_le_total(s.drop_last(), i);
    }
    lemma_total_nonneg(s.drop_last());
}

/// A sum of counts is never negative.
pub proof fn lemma_total_nonneg(s: Seq<u64>)
    ensures
        total(s) >= 0,
    decreases s.len(),
{
    if s.len() > 0 {
        lemma_total_nonneg(s.drop_last());
    }
}

/// Replacing one count changes the sum by the difference.
pub proof fn lemma_total_update(s: Seq<u64>, i: int, v: u64)
    requires
        0 <= i < s.len(),
    ensures
        total(s.update(i, v)) == total(s) - s[i] + v,
    decreases s.len(),
{
    let t = s.update(i, v);
    if i < s.len() - 1 {
        assert(t.drop_last() =~= s.drop_last().update(i, v));
        lemma_total_update(s.drop_last(), i, v);
    } else {
        assert(t.drop_last() =~= s.drop_last());
    }
}

/// The sum of `n` zeros is zero.
pub proof fn lemma_total_zeros(n: nat)
    ensures
        total(Seq::new(n, |i: int| 0u64)) == 0,
    decreases n,
{
    if n > 0 {
        let s = Seq::new(n, |i: int| 0u64);
        assert(s.drop_last() =~= Seq::new((n - 1) as nat, |i: int| 0u64));
        lemma_total_zeros((n - 1) as nat);
    }
}

/// Adds one to the bucket at each position of `bucket_update_pos`, a position
/// that occurs several times being counted once per occurrence.
pub fn update_buckets(buckets: &mut Histogram, bucket_update_pos: Vec<usize>)
    requires
        forall|k: int|
            0 <= k < bucket_update_pos.len() ==> bucket_update_pos[k] < counts(*old(buckets)).len(),
        total(counts(*old(buckets))) + bucket_update_pos.len() <= u64::MAX,
    ensures
        counts(*final(buckets)).len() == counts(*old(buckets)).len(),
        forall|j: int|
            0 <= j < counts(*old(buckets)).len() ==> counts(*final(buckets))[j] == counts(
                *old(buckets),
            )[j] + hits(bucket_update_pos@, j),
        total(counts(*final(buckets))) == total(counts(*old(buckets))) + bucket_update_pos.len(),
{
    let ps = bucket_update_pos;
    let ghost start = counts(*buckets);
    let mut k: usize = 0;
    while k < ps.len()
        invariant
            k <= ps.len(),
            forall|m: int| 0 <= m < ps.len() ==> ps[m] < start.len(),
            total(start) + ps.len() <= u64::MAX,
            counts(*buckets).len() == start.len(),
            forall|j: int|
                0 <= j < start.len() ==> counts(*buckets)[j] == start[j] + hits(
                    ps@.subrange(0, k as int),
                    j,
                ),
            total(counts(*buckets)) == total(start) + k,
        decreases ps.len() - k,
    {
        let p = ps[k];
        let ghost before = counts(*buckets);
        proof {
            lemma_count_le_total(before, p as int);
        }
        let v = buckets.get(p);
        buckets.set(p, v + 1);
        proof {
            lemma_total_update(before, p as int, (v + 1) as u64);
            assert(ps@.subrange(0, k + 1).drop_last() =~= ps@.subrange(0, k as int));
        }
        k = k + 1;
    }
    assert(ps@.subrange(0, ps.len() as int) =~= ps@);
}

} // verus!
