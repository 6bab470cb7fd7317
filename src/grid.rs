use vstd::prelude::*;
use vstd::arithmetic::div_mod::lemma_fundamental_div_mod_converse;

verus! {

/// `v` limited to the range `lo..=hi`.
pub open spec fn clamp(v: int, lo: int, hi: int) -> int {
    if v < lo {
        lo
    } else if v > hi {
        hi
    } else {
        v
    }
}

/// The window `[c - r, c + r)` along one axis, cut to `0..=bound`.
pub open spec fn window(c: int, r: int, bound: int) -> (int, int) {
    (clamp(c - r, 0, bound), clamp(c + r, 0, bound))
}

/// Point `t` of the window around `center`: columns from left to right, each column
/// from top to bottom.
pub open spec fn window_point(center: (u16, u16), r: int, w: int, h: int, t: int) -> (int, int) {
    let (x0, _) = window(center.0 as int, r, w);
    let (y0, y1) = window(center.1 as int, r, h);
    (x0 + t / (y1 - y0), y0 + t % (y1 - y0))
}

/// The positions of a square window around a center, cut to the image.
pub struct Grid {
    pub points: Vec<(u16, u16)>,
}

fn clamp_to(v: i32, lo: i32, hi: i32) -> (r: i32)
    requires
        lo <= hi,
    ensures
        r == clamp(v as int, lo as int, hi as int),
{
    if v < lo {
        lo
    } else if v > hi {
        hi
    } else {
        v
    }
}

impl Grid {
    /// Every position `(x, y)` with `x` in `[cx - ring_count, cx + ring_count)` and
    /// `y` in `[cy - ring_count, cy + ring_count)`, both cut to `0..=max_width` and
    /// `0..=max_height`.
    pub fn new(center: (u16, u16), ring_count: u8, max_width: u16, max_height: u16) -> (g: Grid)
        ensures
            ({
                let (x0, x1) = window(center.0 as int, ring_count as int, max_width as int);
                let (y0, y1) = window(center.1 as int, ring_count as int, max_height as int);
                g.points@.len() == (x1 - x0) * (y1 - y0)
            }),
            forall|t: int|
                0 <= t < g.points@.len() ==> {
                    let p = window_point(
                        center,
                        ring_count as int,
                        max_width as int,
                        max_height as int,
                        t,
                    );
                    &&& (#[trigger] g.points@[t]).0 == p.0
                    &&& g.points@[t].1 == p.1
                },
    {
        let r = ring_count as i32;
        let min_x = clamp_to(center.0 as i32 - r, 0, max_width as i32) as u16;
        let max_x = clamp_to(center.0 as i32 + r, 0, max_width as i32) as u16;
        let min_y = clamp_to(center.1 as i32 - r, 0, max_height as i32) as u16;
        let max_y = clamp_to(center.1 as i32 + r, 0, max_height as i32) as u16;
        let ghost rows = max_y - min_y;
        let mut points: Vec<(u16, u16)> = Vec::new();
        let mut x: u16 = min_x;
        while x < max_x
            invariant
                min_x <= x <= max_x,
                min_y <= max_y,
                rows == max_y - min_y,
                window(center.0 as int, ring_count as int, max_width as int) == (min_x as int, max_x as int),
                window(center.1 as int, ring_count as int, max_height as int) == (min_y as int, max_y as int),
                points@.len() == (x - min_x) * rows,
                forall|t: int|
                    0 <= t < points@.len() ==> {
                        let p = window_point(
                            center,
                            ring_count as int,
                            max_width as int,
                            max_height as int,
                            t,
                        );
                        &&& (#[trigger] points@[t]).0 == p.0
                        &&& points@[t].1 == p.1
                    },
            decreases max_x - x,
        {
            let mut y: u16 = min_y;
            while y < max_y
                invariant
                    min_x <= x < max_x,
                    min_y <= y <= max_y,
                    rows == max_y - min_y,
                    window(center.0 as int, ring_count as int, max_width as int) == (min_x as int, max_x as int),
                    window(center.1 as int, ring_count as int, max_height as int) == (min_y as int, max_y as int),
                    points@.len() == (x - min_x) * rows + (y - min_y),
                    forall|t: int|
                        0 <= t < points@.len() ==> {
                            let p = window_point(
                                center,
                                ring_count as int,
                                max_width as int,
                                max_height as int,
                                t,
                            );
                            &&& (#[trigger] points@[t]).0 == p.0
                            &&& points@[t].1 == p.1
                        },
                decreases max_y - y,
            {
                proof {
                    lemma_fundamental_div_mod_converse(
                        (x - min_x) * rows + (y - min_y),
                        rows,
                        x - min_x,
                        y - min_y,
                    );
                }
                points.push((x, y));
                y = y + 1;
            }
            proof {
                assert((x + 1 - min_x) * rows == (x - min_x) * rows + rows) by (nonlinear_arith);
            }
            x = x + 1;
        }
        Grid { points }
    }

    pub fn points(&self) -> (p: &Vec<(u16, u16)>)
        ensures
            p@ == self.points@,
    {
        &self.points
    }
}

} // verus!
