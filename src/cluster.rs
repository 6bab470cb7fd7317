use vstd::prelude::*;
use vstd::arithmetic::div_mod::{lemma_fundamental_div_mod, lemma_fundamental_div_mod_converse};
use crate::colors::ColorCieLab;
use crate::pixels::PixelCieLab;

verus! {

/// One coordinate of a pixel: 0 and 1 are its position `x` and `y`, 2, 3 and 4 the
/// color channels `l`, `a` and `b`.
pub open spec fn channel(p: PixelCieLab, c: int) -> int {
    if c == 0 {
        p.x as int
    } else if c == 1 {
        p.y as int
    } else if c == 2 {
        p.color.l as int
    } else if c == 3 {
        p.color.a as int
    } else {
        p.color.b as int
    }
}

/// Sum of coordinate `c` over the pixels of `ps`.
pub open spec fn sum_of(ps: Seq<PixelCieLab>, c: int) -> int
    decreases ps.len(),
{
    if ps.len() == 0 {
        0
    } else {
        sum_of(ps.drop_last(), c) + channel(ps.last(), c)
    }
}

/// Arithmetic mean of coordinate `c` over a non-empty `ps`, rounded down.
pub open spec fn mean_of(ps: Seq<PixelCieLab>, c: int) -> int
    recommends
        ps.len() > 0,
{
    sum_of(ps, c) / (ps.len() as int)
}

/// Mean position of `ps`, rounded down; `(0, 0)` for no pixels.
pub open spec fn center_of(ps: Seq<PixelCieLab>) -> (int, int) {
    if ps.len() == 0 {
        (0, 0)
    } else {
        (mean_of(ps, 0), mean_of(ps, 1))
    }
}

/// Mean color of a non-empty `ps`, each channel rounded down.
pub open spec fn average_color_of(ps: Seq<PixelCieLab>) -> ColorCieLab
    recommends
        ps.len() > 0,
{
    ColorCieLab { l: mean_of(ps, 2) as i32, a: mean_of(ps, 3) as i32, b: mean_of(ps, 4) as i32 }
}

/// Lower and upper bound of coordinate `c` over every pixel.
pub open spec fn channel_low(c: int) -> int {
    if c == 0 || c == 1 {
        0
    } else {
        i32::MIN as int
    }
}

pub open spec fn channel_high(c: int) -> int {
    if c == 0 || c == 1 {
        u32::MAX as int
    } else {
        i32::MAX as int
    }
}

pub proof fn lemma_sum_bounds(ps: Seq<PixelCieLab>, c: int)
    ensures
        ps.len() * channel_low(c) <= sum_of(ps, c) <= ps.len() * channel_high(c),
    decreases ps.len(),
{
    if ps.len() > 0 {
        lemma_sum_bounds(ps.drop_last(), c);
        let n = ps.len() as int;
        assert(channel_low(c) <= channel(ps.last(), c) <= channel_high(c));
        assert(n * channel_low(c) == (n - 1) * channel_low(c) + channel_low(c)) by (nonlinear_arith);
        assert(n * channel_high(c) == (n - 1) * channel_high(c) + channel_high(c))
            by (nonlinear_arith);
    }
}

pub proof fn lemma_mean_bounds(ps: Seq<PixelCieLab>, c: int)
    requires
        ps.len() > 0,
    ensures
        channel_low(c) <= mean_of(ps, c) <= channel_high(c),
{
    lemma_sum_bounds(ps, c);
    let n = ps.len() as int;
    let s = sum_of(ps, c);
    lemma_fundamental_div_mod(s, n);
    let q = s / n;
    let lo = channel_low(c);
    let hi = channel_high(c);
    assert(lo <= q) by (nonlinear_arith)
        requires
            n > 0,
            n * lo <= s,
            s == n * q + s % n,
            s % n < n,
    ;
    assert(q <= hi) by (nonlinear_arith)
        requires
            n > 0,
            s <= n * hi,
            s == n * q + s % n,
            0 <= s % n,
    ;
}

proof fn lemma_sum_of_take(ps: Seq<PixelCieLab>, i: int, c: int)
    requires
        0 <= i < ps.len(),
    ensures
        sum_of(ps.take(i + 1), c) == sum_of(ps.take(i), c) + channel(ps[i], c),
{
    assert(ps.take(i + 1).drop_last() =~= ps.take(i));
}

/// `⌊sum / d⌋` for a possibly negative `sum`.
fn floor_div(sum: i128, d: u128) -> (q: i128)
    requires
        0 < d <= u64::MAX,
        -0x1_0000_0000_0000_0000_0000_0000int <= sum <= 0x1_0000_0000_0000_0000_0000_0000int,
    ensures
        q == sum as int / d as int,
{
    if sum >= 0 {
        let q: u128 = sum as u128 / d;
        proof {
            assert(q <= sum) by (nonlinear_arith)
                requires
                    d >= 1,
                    0 <= sum,
                    q == sum as int / d as int,
            ;
        }
        q as i128
    } else {
        let a: u128 = (-sum) as u128;
        let up: u128 = (a + (d - 1)) / d;
        proof {
            let t = (a + d - 1) as int;
            lemma_fundamental_div_mod(t, d as int);
            let r = t % (d as int);
            assert(up * d == t - r) by (nonlinear_arith)
                requires
                    t == d * up + r,
            ;
            assert(up <= a) by (nonlinear_arith)
                requires
                    d >= 1,
                    a >= 1,
                    up * d == t - r,
                    t == a + d - 1,
                    0 <= r,
            ;
            assert(0 <= r < d);
            assert(0 <= up * d + sum < d);
            assert(sum == (-up) * d + (up * d + sum)) by (nonlinear_arith);
            lemma_fundamental_div_mod_converse(sum as int, d as int, -up, up * d + sum);
        }
        -(up as i128)
    }
}

/// The pixels currently labeled with one cluster index.
pub struct PixelCluster {
    pub pixels: Vec<PixelCieLab>,
}

impl PixelCluster {
    pub fn new(pixels: Vec<PixelCieLab>) -> (c: PixelCluster)
        ensures
            c.pixels@ == pixels@,
    {
        PixelCluster { pixels }
    }

    /// Mean position of the members, rounded down; `(0, 0)` for an empty cluster.
    pub fn calculate_center(&self) -> (center: (u32, u32))
        ensures
            center.0 == center_of(self.pixels@).0,
            center.1 == center_of(self.pixels@).1,
    {
        let n = self.pixels.len();
        if n == 0 {
            return (0, 0);
        }
        let mut sum_x: u128 = 0;
        let mut sum_y: u128 = 0;
        let mut i: usize = 0;
        while i < n
            invariant
                0 <= i <= n,
                n == self.pixels@.len(),
                sum_x == sum_of(self.pixels@.take(i as int), 0),
                sum_y == sum_of(self.pixels@.take(i as int), 1),
            decreases n - i,
        {
            proof {
                lemma_sum_of_take(self.pixels@, i as int, 0);
                lemma_sum_of_take(self.pixels@, i as int, 1);
                lemma_sum_bounds(self.pixels@.take(i as int), 0);
                lemma_sum_bounds(self.pixels@.take(i as int), 1);
                assert(i * (u32::MAX as int) <= 0x1_0000_0000_0000_0000int * 0x1_0000_0000int)
                    by (nonlinear_arith)
                    requires
                        0 <= i < 0x1_0000_0000_0000_0000int,
                ;
            }
            sum_x = sum_x + self.pixels[i].x as u128;
            sum_y = sum_y + self.pixels[i].y as u128;
            i = i + 1;
        }
        proof {
            assert(self.pixels@.take(n as int) =~= self.pixels@);
            lemma_mean_bounds(self.pixels@, 0);
            lemma_mean_bounds(self.pixels@, 1);
        }
        ((sum_x / n as u128) as u32, (sum_y / n as u128) as u32)
    }

    /// Mean color of the members, each channel rounded down; `None` for an empty
    /// cluster.
    pub fn average_color(&self) -> (color: Option<ColorCieLab>)
        ensures
            self.pixels@.len() == 0 ==> color.is_none(),
            self.pixels@.len() > 0 ==> color == Some(average_color_of(self.pixels@)),
    {
        let n = self.pixels.len();
        if n == 0 {
            return None;
        }
        let mut sum_l: i128 = 0;
        let mut sum_a: i128 = 0;
        let mut sum_b: i128 = 0;
        let mut i: usize = 0;
        while i < n
            invariant
                0 <= i <= n,
                n == self.pixels@.len(),
                sum_l == sum_of(self.pixels@.take(i as int), 2),
                sum_a == sum_of(self.pixels@.take(i as int), 3),
                sum_b == sum_of(self.pixels@.take(i as int), 4),
            decreases n - i,
        {
            proof {
                lemma_sum_of_take(self.pixels@, i as int, 2);
                lemma_sum_of_take(self.pixels@, i as int, 3);
                lemma_sum_of_take(self.pixels@, i as int, 4);
                lemma_sum_bounds(self.pixels@.take(i as int), 2);
                lemma_sum_bounds(self.pixels@.take(i as int), 3);
                lemma_sum_bounds(self.pixels@.take(i as int), 4);
                assert(i * (i32::MIN as int) >= -0x1_0000_0000_0000_0000int * 0x8000_0000int
                    && i * (i32::MAX as int) <= 0x1_0000_0000_0000_0000int * 0x8000_0000int)
                    by (nonlinear_arith)
                    requires
                        0 <= i < 0x1_0000_0000_0000_0000int,
                ;
            }
            sum_l = sum_l + self.pixels[i].color.l as i128;
            sum_a = sum_a + self.pixels[i].color.a as i128;
            sum_b = sum_b + self.pixels[i].color.b as i128;
            i = i + 1;
        }
        proof {
            assert(self.pixels@.take(n as int) =~= self.pixels@);
            lemma_sum_bounds(self.pixels@, 2);
            lemma_sum_bounds(self.pixels@, 3);
            lemma_sum_bounds(self.pixels@, 4);
            assert(n * (i32::MIN as int) >= -0x1_0000_0000_0000_0000int * 0x8000_0000int
                && n * (i32::MAX as int) <= 0x1_0000_0000_0000_0000int * 0x8000_0000int)
                by (nonlinear_arith)
                requires
                    0 < n < 0x1_0000_0000_0000_0000int,
            ;
            lemma_mean_bounds(self.pixels@, 2);
            lemma_mean_bounds(self.pixels@, 3);
            lemma_mean_bounds(self.pixels@, 4);
        }
        let l = floor_div(sum_l, n as u128);
        let a = floor_div(sum_a, n as u128);
        let b = floor_div(sum_b, n as u128);
        Some(ColorCieLab { l: l as i32, a: a as i32, b: b as i32 })
    }
}

} // verus!
