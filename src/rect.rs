use vstd::prelude::*;
use vstd::arithmetic::div_mod::{lemma_fundamental_div_mod, lemma_fundamental_div_mod_converse};
use crate::roots::{floor_sqrt, integer_sqrt};

verus! {

/// The image rectangle on which initial centroids are laid out.
#[derive(Debug, Clone, Copy, PartialEq, Eq, Structural)]
pub struct Rectangle {
    pub width: u32,
    pub height: u32,
}

/// Number of grid columns: `round(√(k·w/h))`, kept within `1..=k` so that every
/// column holds at least one seed. `round(√q)` is the largest `r` with
/// `(2r - 1)² <= 4q`, found from `⌊√⌊4kw/h⌋⌋`.
pub open spec fn grid_columns(w: int, h: int, k: int) -> int {
    let r: int = (floor_sqrt((4 * k * w / h) as nat) as int + 1) / 2;
    if r < 1 {
        1
    } else if r > k {
        k
    } else {
        r
    }
}

/// Number of seeds in each full column.
pub open spec fn grid_rows(w: int, h: int, k: int) -> int {
    k / grid_columns(w, h, k)
}

/// Whether `k` seeds fill the `columns × rows` grid exactly.
pub open spec fn grid_is_exact(w: int, h: int, k: int) -> bool {
    grid_columns(w, h, k) * grid_rows(w, h, k) == k
}

/// Number of full columns: one fewer than `grid_columns` when the grid is not exact,
/// the last column then holding the remaining seeds.
pub open spec fn full_columns(w: int, h: int, k: int) -> int {
    if grid_is_exact(w, h, k) {
        grid_columns(w, h, k)
    } else {
        grid_columns(w, h, k) - 1
    }
}

/// Number of seeds in the last, partial column (zero when the grid is exact).
pub open spec fn remainder_seeds(w: int, h: int, k: int) -> int {
    k - full_columns(w, h, k) * grid_rows(w, h, k)
}

/// `⌊(2i + 1) · cell / 2⌋`: the center of cell `i` along an axis of cells of size `cell`.
pub open spec fn cell_center(i: int, cell: int) -> int {
    (2 * i + 1) * cell / 2
}

/// Position of seed `t`: seeds run down each full column in turn, then down the
/// partial column at the right.
pub open spec fn seed_position(w: int, h: int, k: int, t: int) -> (int, int) {
    let rows = grid_rows(w, h, k);
    let cell_w = w / grid_columns(w, h, k);
    let full = full_columns(w, h, k) * rows;
    if t < full {
        (cell_center(t / rows, cell_w), cell_center(t % rows, h / rows))
    } else {
        (
            cell_center(full_columns(w, h, k), cell_w),
            cell_center(t - full, h / remainder_seeds(w, h, k)),
        )
    }
}

/// `pos` is seed `t` of the layout of `k` seeds over a `w × h` rectangle, and lies
/// inside the rectangle.
pub open spec fn is_seed(w: int, h: int, k: int, t: int, pos: (u32, u32)) -> bool {
    &&& pos.0 == seed_position(w, h, k, t).0
    &&& pos.1 == seed_position(w, h, k, t).1
    &&& pos.0 < w
    &&& pos.1 < h
}

proof fn lemma_cell_center_bound(i: int, n: int, cell: int, extent: int)
    requires
        0 <= i < n,
        0 <= cell,
        n * cell <= extent,
        1 <= extent,
    ensures
        0 <= cell_center(i, cell) < extent,
{
    assert(0 <= (2 * i + 1) * cell) by (nonlinear_arith)
        requires
            0 <= i,
            0 <= cell,
    ;
    if cell == 0 {
        assert((2 * i + 1) * cell == 0) by (nonlinear_arith)
            requires
                cell == 0,
        ;
    } else {
        assert((2 * i + 1) * cell < 2 * (n * cell)) by (nonlinear_arith)
            requires
                0 <= i < n,
                0 < cell,
        ;
    }
}

proof fn lemma_grid_shape(w: int, h: int, k: int)
    requires
        1 <= w,
        1 <= h,
        1 <= k <= w * h,
    ensures
        1 <= grid_columns(w, h, k) <= k,
        1 <= grid_rows(w, h, k) <= k,
        0 <= full_columns(w, h, k) <= grid_columns(w, h, k),
        grid_columns(w, h, k) * grid_rows(w, h, k) <= k,
        remainder_seeds(w, h, k) >= 0,
        grid_is_exact(w, h, k) <==> remainder_seeds(w, h, k) == 0,
        full_columns(w, h, k) * grid_rows(w, h, k) + remainder_seeds(w, h, k) == k,
        grid_columns(w, h, k) * (w / grid_columns(w, h, k)) <= w,
        grid_rows(w, h, k) * (h / grid_rows(w, h, k)) <= h,
        remainder_seeds(w, h, k) > 0 ==> remainder_seeds(w, h, k) * (h / remainder_seeds(w, h, k)) <= h,
{
    let c = grid_columns(w, h, k);
    let r = grid_rows(w, h, k);
    lemma_fundamental_div_mod(k, c);
    lemma_fundamental_div_mod(w, c);
    lemma_fundamental_div_mod(h, r);
    assert(r >= 1) by (nonlinear_arith)
        requires
            1 <= c <= k,
            k == c * r + k % c,
            0 <= k % c < c,
    ;
    assert(r <= k) by (nonlinear_arith)
        requires
            1 <= c,
            k == c * r + k % c,
            0 <= k % c,
            r >= 1,
    ;
    if !grid_is_exact(w, h, k) {
        assert((c - 1) * r == c * r - r) by (nonlinear_arith);
    }
    let e = remainder_seeds(w, h, k);
    if e > 0 {
        lemma_fundamental_div_mod(h, e);
    }
}

impl Rectangle {
    pub fn new(width: u32, height: u32) -> (r: Rectangle)
        ensures
            r == (Rectangle { width, height }),
    {
        Rectangle { width, height }
    }

    /// `n` seed positions laid out on a regular grid over the rectangle, each at the
    /// center of its cell; when `n` does not fill the grid exactly, the last column
    /// holds the remaining seeds spaced evenly from top to bottom.
    pub fn sample_positions(&self, n: u64) -> (positions: Vec<(u32, u32)>)
        requires
            1 <= n <= self.width * self.height,
        ensures
            positions@.len() == n,
            forall|t: int|
                0 <= t < n ==> is_seed(self.width as int, self.height as int, n as int, t, #[trigger] positions@[t]),
    {
        let w = self.width;
        let h = self.height;
        let ghost (wi, hi, ki) = (w as int, h as int, n as int);
        proof {
            assert(1 <= w && 1 <= h) by (nonlinear_arith)
                requires
                    1 <= n <= w * h,
                    0 <= w,
                    0 <= h,
            ;
            assert(4 * ki * wi <= 4 * 0x1_0000_0000_0000_0000int * 0x1_0000_0000int) by (nonlinear_arith)
                requires
                    0 <= ki < 0x1_0000_0000_0000_0000int,
                    0 <= wi < 0x1_0000_0000int,
            ;
            lemma_grid_shape(wi, hi, ki);
        }
        let root: u128 = integer_sqrt(4 * (n as u128) * (w as u128) / (h as u128));
        proof {
            assert(root <= 0x4_0000_0000_0000int) by (nonlinear_arith)
                requires
                    root * root <= 4 * ki * wi,
                    4 * ki * wi <= 4 * 0x1_0000_0000_0000_0000int * 0x1_0000_0000int,
                    0 <= root,
            ;
        }
        let rounded: u128 = (root + 1) / 2;
        let columns: u64 = if rounded < 1 {
            1
        } else if rounded > n as u128 {
            n
        } else {
            rounded as u64
        };
        assert(columns == grid_columns(wi, hi, ki));
        let rows: u64 = n / columns;
        let exact: bool = columns * rows == n;
        let full: u64 = if exact { columns } else { columns - 1 };
        let cell_w: u64 = w as u64 / columns;
        let cell_h: u64 = h as u64 / rows;
        let mut positions: Vec<(u32, u32)> = Vec::new();
        let mut i: u64 = 0;
        while i < full
            invariant
                0 <= i <= full,
                full == full_columns(wi, hi, ki),
                rows == grid_rows(wi, hi, ki),
                columns == grid_columns(wi, hi, ki),
                cell_w == w as int / columns as int,
                cell_h == h as int / rows as int,
                wi == w,
                hi == h,
                ki == n,
                1 <= w,
                1 <= h,
                1 <= n <= w * h,
                positions@.len() == i * rows,
                forall|t: int|
                    0 <= t < positions@.len() ==> is_seed(wi, hi, ki, t, #[trigger] positions@[t]),
            decreases full - i,
        {
            proof {
                lemma_grid_shape(wi, hi, ki);
                lemma_cell_center_bound(i as int, columns as int, cell_w as int, wi);
            }
            let x: u32 = ((2 * i as u128 + 1) * cell_w as u128 / 2) as u32;
            let mut j: u64 = 0;
            while j < rows
                invariant
                    0 <= i < full,
                    0 <= j <= rows,
                    full == full_columns(wi, hi, ki),
                    rows == grid_rows(wi, hi, ki),
                    columns == grid_columns(wi, hi, ki),
                    cell_w == w as int / columns as int,
                    cell_h == h as int / rows as int,
                    x == cell_center(i as int, cell_w as int),
                    x < w,
                    wi == w,
                    hi == h,
                    ki == n,
                    1 <= w,
                    1 <= h,
                    1 <= n <= w * h,
                    positions@.len() == i * rows + j,
                    forall|t: int|
                        0 <= t < positions@.len() ==> is_seed(wi, hi, ki, t, #[trigger] positions@[t]),
                decreases rows - j,
            {
                proof {
                    lemma_grid_shape(wi, hi, ki);
                    lemma_cell_center_bound(j as int, rows as int, cell_h as int, hi);
                    let t = i * rows + j;
                    lemma_fundamental_div_mod_converse(t, rows as int, i as int, j as int);
                    assert(t < full * rows) by (nonlinear_arith)
                        requires
                            t == i * rows + j,
                            j < rows,
                            i + 1 <= full,
                    ;
                }
                let y: u32 = ((2 * j as u128 + 1) * cell_h as u128 / 2) as u32;
                positions.push((x, y));
                j = j + 1;
            }
            proof {
                assert((i + 1) * rows == i * rows + rows) by (nonlinear_arith);
            }
            i = i + 1;
        }
        if !exact {
            proof {
                lemma_grid_shape(wi, hi, ki);
            }
            let done: u64 = full * rows;
            let rest: u64 = n - done;
            let cell_rest: u64 = h as u64 / rest;
            proof {
                lemma_cell_center_bound(full as int, columns as int, cell_w as int, wi);
            }
            let x: u32 = ((2 * full as u128 + 1) * cell_w as u128 / 2) as u32;
            let mut j: u64 = 0;
            while j < rest
                invariant
                    0 <= j <= rest,
                    rest == remainder_seeds(wi, hi, ki),
                    rest > 0,
                    done == full * rows,
                    done + rest == n,
                    full == full_columns(wi, hi, ki),
                    rows == grid_rows(wi, hi, ki),
                    columns == grid_columns(wi, hi, ki),
                    cell_w == w as int / columns as int,
                    cell_rest == h as int / rest as int,
                    x == cell_center(full as int, cell_w as int),
                    x < w,
                    wi == w,
                    hi == h,
                    ki == n,
                    1 <= w,
                    1 <= h,
                    1 <= n <= w * h,
                    positions@.len() == done + j,
                    forall|t: int|
                        0 <= t < positions@.len() ==> is_seed(wi, hi, ki, t, #[trigger] positions@[t]),
                decreases rest - j,
            {
                proof {
                    lemma_grid_shape(wi, hi, ki);
                    lemma_cell_center_bound(j as int, rest as int, cell_rest as int, hi);
                }
                let y: u32 = ((2 * j as u128 + 1) * cell_rest as u128 / 2) as u32;
                positions.push((x, y));
                j = j + 1;
            }
        }
        positions
    }
}

} // verus!
