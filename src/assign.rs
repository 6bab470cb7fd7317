use vstd::prelude::*;
use rayon::iter::{IntoParallelRefMutIterator, ParallelIterator};
use crate::pixels::{scaled_distance, PixelCieLab};

verus! {

/// A sample pixel with its label: the best distance found so far and the index of
/// the centroid it belongs to (`None` while unassigned).
#[derive(Debug, Clone, Copy, PartialEq, Eq, Structural)]
pub struct LabelPixel {
    pub pixel: PixelCieLab,
    pub centroid_distance: u128,
    pub centroid_index: Option<usize>,
}

/// Centroid `j` is the nearest to `p` among the first `n` centroids of `cs`: none of
/// them is closer, and every one before `j` is strictly farther (the first minimum
/// in scan order wins).
pub open spec fn is_nearest_among(
    p: PixelCieLab,
    cs: Seq<PixelCieLab>,
    m: int,
    s: int,
    n: int,
    j: int,
) -> bool {
    &&& 0 <= j < n <= cs.len()
    &&& forall|i: int|
        0 <= i < n ==> scaled_distance(p, cs[j], m, s) <= #[trigger] scaled_distance(
            p,
            cs[i],
            m,
            s,
        )
    &&& forall|i: int|
        0 <= i < j ==> scaled_distance(p, cs[j], m, s) < #[trigger] scaled_distance(
            p,
            cs[i],
            m,
            s,
        )
}

/// Centroid `j` is the nearest to `p` among all of `cs`.
pub open spec fn is_nearest(p: PixelCieLab, cs: Seq<PixelCieLab>, m: int, s: int, j: int) -> bool {
    is_nearest_among(p, cs, m, s, cs.len() as int, j)
}

/// Index of the centroid nearest to `p`.
pub open spec fn nearest_centroid(p: PixelCieLab, cs: Seq<PixelCieLab>, m: int, s: int) -> int {
    choose|j: int| is_nearest(p, cs, m, s, j)
}

/// The label of `lp` after an assignment step against `cs`.
pub open spec fn assigned_label(lp: LabelPixel, cs: Seq<PixelCieLab>, m: int, s: int) -> LabelPixel {
    let j = nearest_centroid(lp.pixel, cs, m, s);
    LabelPixel {
        pixel: lp.pixel,
        centroid_distance: scaled_distance(lp.pixel, cs[j], m, s) as u128,
        centroid_index: Some(j as usize),
    }
}

/// Among at least one centroid there is a first nearest one.
pub proof fn lemma_nearest_exists(p: PixelCieLab, cs: Seq<PixelCieLab>, m: int, s: int, n: int)
    requires
        1 <= n <= cs.len(),
    ensures
        exists|j: int| #[trigger] is_nearest_among(p, cs, m, s, n, j),
    decreases n,
{
    if n == 1 {
        assert(is_nearest_among(p, cs, m, s, 1, 0));
    } else {
        lemma_nearest_exists(p, cs, m, s, n - 1);
        let j = choose|j: int| #[trigger] is_nearest_among(p, cs, m, s, n - 1, j);
        if scaled_distance(p, cs[n - 1], m, s) < scaled_distance(p, cs[j], m, s) {
            assert(is_nearest_among(p, cs, m, s, n, n - 1));
        } else {
            assert(is_nearest_among(p, cs, m, s, n, j));
        }
    }
}

/// The first nearest centroid is unique.
pub proof fn lemma_nearest_unique(
    p: PixelCieLab,
    cs: Seq<PixelCieLab>,
    m: int,
    s: int,
    n: int,
    j1: int,
    j2: int,
)
    requires
        is_nearest_among(p, cs, m, s, n, j1),
        is_nearest_among(p, cs, m, s, n, j2),
    ensures
        j1 == j2,
{
    if j1 < j2 {
        assert(scaled_distance(p, cs[j2], m, s) < scaled_distance(p, cs[j1], m, s));
    } else if j2 < j1 {
        assert(scaled_distance(p, cs[j1], m, s) < scaled_distance(p, cs[j2], m, s));
    }
}

/// Over a non-empty `cs`, `nearest_centroid` is the first nearest centroid.
pub proof fn lemma_nearest_centroid(p: PixelCieLab, cs: Seq<PixelCieLab>, m: int, s: int)
    requires
        cs.len() >= 1,
    ensures
        is_nearest(p, cs, m, s, nearest_centroid(p, cs, m, s)),
{
    lemma_nearest_exists(p, cs, m, s, cs.len() as int);
    let j = choose|j: int| #[trigger] is_nearest_among(p, cs, m, s, cs.len() as int, j);
    assert(is_nearest(p, cs, m, s, j));
}

impl LabelPixel {
    /// A pixel with no centroid yet: the largest distance and no index.
    pub fn new(pixel: PixelCieLab) -> (lp: LabelPixel)
        ensures
            lp == (LabelPixel { pixel, centroid_distance: u128::MAX, centroid_index: None }),
    {
        LabelPixel { pixel, centroid_distance: u128::MAX, centroid_index: None }
    }

    pub fn pixel(&self) -> (p: &PixelCieLab)
        ensures
            *p == self.pixel,
    {
        &self.pixel
    }

    pub fn centroid_distance_mut(&mut self) -> (d: &mut u128)
        ensures
            *d == old(self).centroid_distance,
            *final(self) == (LabelPixel { centroid_distance: *final(d), ..*old(self) }),
    {
        &mut self.centroid_distance
    }

    pub fn centroid_index_mut(&mut self) -> (i: &mut Option<usize>)
        ensures
            *i == old(self).centroid_index,
            *final(self) == (LabelPixel { centroid_index: *final(i), ..*old(self) }),
    {
        &mut self.centroid_index
    }

    /// Resets the label, then scans every centroid and keeps the first one at the
    /// smallest distance.
    pub fn assign(&mut self, centroids: &Vec<PixelCieLab>, m: u8, s: u32)
        requires
            centroids@.len() >= 1,
        ensures
            *final(self) == assigned_label(*old(self), centroids@, m as int, s as int),
    {
        *self.centroid_distance_mut() = u128::MAX;
        *self.centroid_index_mut() = None;
        let k = centroids.len();
        let ghost p = self.pixel;
        let mut j: usize = 0;
        while j < k
            invariant
                0 <= j <= k,
                k == centroids@.len(),
                self.pixel == p,
                p == old(self).pixel,
                j == 0 ==> self.centroid_index.is_none() && self.centroid_distance == u128::MAX,
                j > 0 ==> {
                    &&& self.centroid_index matches Some(b)
                    &&& is_nearest_among(p, centroids@, m as int, s as int, j as int, b as int)
                    &&& self.centroid_distance == scaled_distance(
                        p,
                        centroids@[b as int],
                        m as int,
                        s as int,
                    )
                },
            decreases k - j,
        {
            let d = PixelCieLab::distance(&self.pixel, &centroids[j], m, s);
            if d < self.centroid_distance {
                *self.centroid_distance_mut() = d;
                *self.centroid_index_mut() = Some(j);
            }
            j = j + 1;
        }
        proof {
            let b = self.centroid_index->0 as int;
            lemma_nearest_centroid(p, centroids@, m as int, s as int);
            lemma_nearest_unique(
                p,
                centroids@,
                m as int,
                s as int,
                k as int,
                b,
                nearest_centroid(p, centroids@, m as int, s as int),
            );
        }
    }
}

/// Relies on rayon's `par_iter_mut` and `ParallelIterator::for_each`: the closure is
/// called exactly once on each element of `labels`, with exclusive access to that
/// element alone, and every call has returned when `for_each` returns.
#[verifier::external_body]
pub(crate) fn assign_all_in_parallel(labels: &mut Vec<LabelPixel>, centroids: &Vec<PixelCieLab>, m: u8, s: u32)
    requires
        centroids@.len() >= 1,
    ensures
        final(labels)@.len() == old(labels)@.len(),
        forall|i: int|
            0 <= i < old(labels)@.len() ==> final(labels)@[i] == assigned_label(
                old(labels)@[i],
                centroids@,
                m as int,
                s as int,
            ),
{
    labels.par_iter_mut().for_each(|label| label.assign(centroids, m, s));
}

} // verus!
