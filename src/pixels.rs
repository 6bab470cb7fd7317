use vstd::prelude::*;
use crate::colors::{ColorCieLab, LAB_SCALE};

verus! {

/// Squared Euclidean distance of two colors, in squared fixed-point units.
pub open spec fn color_distance2(a: ColorCieLab, b: ColorCieLab) -> int {
    (a.l - b.l) * (a.l - b.l) + (a.a - b.a) * (a.a - b.a) + (a.b - b.b) * (a.b - b.b)
}

/// Squared Euclidean distance of two image positions.
pub open spec fn spatial_distance2(p: PixelCieLab, q: PixelCieLab) -> int {
    (p.x - q.x) * (p.x - q.x) + (p.y - q.y) * (p.y - q.y)
}

/// The clustering metric `colorDist² + (m / s) · spatialDist²`, with the color term
/// in Lab units, multiplied by `LAB_SCALE² · s` so that it is an exact integer:
/// `s · colorDist²(fixed point) + LAB_SCALE² · m · spatialDist²`.
/// Multiplying by a positive constant keeps every comparison between distances.
pub open spec fn scaled_distance(p: PixelCieLab, q: PixelCieLab, m: int, s: int) -> int {
    s * color_distance2(p.color, q.color)
        + (LAB_SCALE * LAB_SCALE) * m * spatial_distance2(p, q)
}

/// A sample pixel or a centroid: an image position and a color.
#[derive(Debug, Clone, Copy, PartialEq, Eq, Structural)]
pub struct PixelCieLab {
    pub x: u32,
    pub y: u32,
    pub color: ColorCieLab,
}

proof fn lemma_square_bound(d: int, bound: int)
    requires
        -bound <= d <= bound,
    ensures
        0 <= d * d <= bound * bound,
{
    assert(0 <= d * d <= bound * bound) by (nonlinear_arith)
        requires
            -bound <= d <= bound,
    ;
}

/// A pixel or centroid is at distance zero from itself, whatever the compactness
/// and the spacing.
pub proof fn lemma_self_distance_is_zero(p: PixelCieLab, m: int, s: int)
    ensures
        scaled_distance(p, p, m, s) == 0,
{
    assert(s * 0 == 0 && (LAB_SCALE * LAB_SCALE) * m * 0 == 0) by (nonlinear_arith);
}

/// For a compactness below 256 and a spacing below 2³², the scaled distance is a
/// non-negative integer below 2¹⁰⁰.
pub proof fn lemma_scaled_distance_bound(p: PixelCieLab, q: PixelCieLab, m: int, s: int)
    requires
        0 <= m < 256,
        0 <= s < 0x1_0000_0000int,
    ensures
        0 <= scaled_distance(p, q, m, s) < 0x10_0000_0000_0000_0000_0000_0000int,
{
    let c32: int = 0x1_0000_0000int;
    lemma_square_bound(p.color.l - q.color.l, c32);
    lemma_square_bound(p.color.a - q.color.a, c32);
    lemma_square_bound(p.color.b - q.color.b, c32);
    lemma_square_bound(p.x - q.x, c32);
    lemma_square_bound(p.y - q.y, c32);
    let c = color_distance2(p.color, q.color);
    let d = spatial_distance2(p, q);
    assert(0 <= s * c <= c32 * (3 * c32 * c32)) by (nonlinear_arith)
        requires
            0 <= s < c32,
            0 <= c <= 3 * c32 * c32,
    ;
    assert(0 <= (10000 * m) * d <= (10000 * 256) * (2 * c32 * c32)) by (nonlinear_arith)
        requires
            0 <= m < 256,
            0 <= d <= 2 * c32 * c32,
    ;
    assert((LAB_SCALE * LAB_SCALE) * m * d == (10000 * m) * d) by (nonlinear_arith)
        requires
            LAB_SCALE == 100,
    ;
    assert(c32 * (3 * c32 * c32) + (10000 * 256) * (2 * c32 * c32)
        < 0x10_0000_0000_0000_0000_0000_0000int) by (nonlinear_arith)
        requires
            c32 == 0x1_0000_0000int,
    ;
}

impl PixelCieLab {
    pub fn new(x: u32, y: u32, color: ColorCieLab) -> (p: PixelCieLab)
        ensures
            p == (PixelCieLab { x, y, color }),
    {
        PixelCieLab { x, y, color }
    }

    pub fn x(&self) -> (v: u32)
        ensures
            v == self.x,
    {
        self.x
    }

    pub fn y(&self) -> (v: u32)
        ensures
            v == self.y,
    {
        self.y
    }

    pub fn color(&self) -> (c: &ColorCieLab)
        ensures
            *c == self.color,
    {
        &self.color
    }

    pub fn values(&self) -> (v: (u32, u32))
        ensures
            v == (self.x, self.y),
    {
        (self.x, self.y)
    }

    /// The clustering metric between `a` and `b` for compactness `m` and centroid
    /// spacing `s`, scaled to an exact integer (see `scaled_distance`).
    pub fn distance(a: &PixelCieLab, b: &PixelCieLab, m: u8, s: u32) -> (d: u128)
        ensures
            d == scaled_distance(*a, *b, m as int, s as int),
            d < 0x10_0000_0000_0000_0000_0000_0000int,
    {
        proof {
            lemma_scaled_distance_bound(*a, *b, m as int, s as int);
        }
        let dl: i128 = a.color.l as i128 - b.color.l as i128;
        let da: i128 = a.color.a as i128 - b.color.a as i128;
        let db: i128 = a.color.b as i128 - b.color.b as i128;
        let dx: i128 = a.x as i128 - b.x as i128;
        let dy: i128 = a.y as i128 - b.y as i128;
        let ghost c32: int = 0x1_0000_0000int;
        proof {
            lemma_square_bound(dl as int, c32);
            lemma_square_bound(da as int, c32);
            lemma_square_bound(db as int, c32);
            lemma_square_bound(dx as int, c32);
            lemma_square_bound(dy as int, c32);
        }
        let color: i128 = dl * dl + da * da + db * db;
        let spatial: i128 = dx * dx + dy * dy;
        let color_u: u128 = color as u128;
        let spatial_u: u128 = spatial as u128;
        let scale: u128 = LAB_SCALE as u128 * LAB_SCALE as u128;
        proof {
            let cb: int = 3 * c32 * c32;
            let pb: int = 2 * c32 * c32;
            assert(s * color_u <= c32 * cb) by (nonlinear_arith)
                requires
                    0 <= s < c32,
                    0 <= color_u <= cb,
            ;
            assert(scale * m <= 10000 * 256);
            assert((scale * m) * spatial_u <= (10000 * 256) * pb) by (nonlinear_arith)
                requires
                    0 <= scale * m <= 10000 * 256,
                    0 <= spatial_u <= pb,
            ;
            assert(c32 * cb + (10000 * 256) * pb < 0x1_0000_0000_0000_0000_0000_0000_0000_0000int);
        }
        let weight: u128 = scale * m as u128;
        let color_term: u128 = s as u128 * color_u;
        let spatial_term: u128 = weight * spatial_u;
        color_term + spatial_term
    }
}

} // verus!
