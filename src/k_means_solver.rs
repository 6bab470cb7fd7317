use vstd::prelude::*;
use vstd::arithmetic::div_mod::lemma_fundamental_div_mod_converse;
use crate::assign::{assign_all_in_parallel, assigned_label, LabelPixel};
use crate::cluster::{average_color_of, center_of, PixelCluster};
use crate::colors::ColorCieLab;
use crate::pixels::PixelCieLab;
use crate::rect::{is_seed, seed_position, Rectangle};
use crate::roots::{floor_sqrt, integer_sqrt};

verus! {

/// Why a solver could not be built.
#[derive(Debug, Clone, Copy, PartialEq, Eq, Structural)]
pub enum SolverError {
    /// The image has no pixel: its width or its height is zero.
    EmptyImage,
    /// A side of the image is longer than `u32::MAX`, beyond what pixel coordinates
    /// can reach.
    ImageTooLarge,
    /// Zero superpixels were asked for.
    NoSuperpixels,
    /// More superpixels were asked for than the image has pixels.
    TooManySuperpixels,
    /// The pixels are not exactly one for each position of the image.
    InvalidPixels,
}

/// What a solver holds: the labeled pixels, the centroids (their index is the
/// cluster identifier), the image size, the compactness `m` and the spacing `s`.
pub struct SolverState {
    pub labels: Seq<LabelPixel>,
    pub centroids: Seq<PixelCieLab>,
    pub width: int,
    pub height: int,
    pub m: int,
    pub s: int,
}

/// Linear index of position `(x, y)` in an image `w` pixels wide, row by row.
pub open spec fn position_index(x: int, y: int, w: int) -> int {
    y * w + x
}

/// `ps` holds exactly one pixel for each position of a `w × h` image.
pub open spec fn pixels_cover_image(ps: Seq<PixelCieLab>, w: int, h: int) -> bool {
    &&& ps.len() == w * h
    &&& forall|i: int| 0 <= i < ps.len() ==> #[trigger] ps[i].x < w && ps[i].y < h
    &&& forall|i: int, j: int|
        0 <= i < j < ps.len() ==> !(#[trigger] ps[i].x == #[trigger] ps[j].x && ps[i].y == ps[j].y)
    &&& forall|x: int, y: int|
        0 <= x < w && 0 <= y < h ==> #[trigger] has_pixel_at(ps, x, y)
}

pub open spec fn has_pixel_at(ps: Seq<PixelCieLab>, x: int, y: int) -> bool {
    exists|i: int| 0 <= i < ps.len() && #[trigger] ps[i].x == x && ps[i].y == y
}

/// The pixel of `ps` at position `(x, y)`.
pub open spec fn pixel_at(ps: Seq<PixelCieLab>, x: int, y: int) -> PixelCieLab {
    ps[choose|i: int| 0 <= i < ps.len() && #[trigger] ps[i].x == x && ps[i].y == y]
}

/// Expected spacing between centroids: `⌊√(n / k)⌋`, made odd by adding one to an
/// even value.
pub open spec fn superpixel_size(n: int, k: int) -> int {
    let r = floor_sqrt((n / k) as nat) as int;
    if r % 2 == 1 {
        r
    } else {
        r + 1
    }
}

/// The initial centroids: the pixel at each seed position of the grid layout.
pub open spec fn initial_centroids(ps: Seq<PixelCieLab>, w: int, h: int, k: int) -> Seq<
    PixelCieLab,
> {
    Seq::new(
        k as nat,
        |t: int| pixel_at(ps, seed_position(w, h, k, t).0, seed_position(w, h, k, t).1),
    )
}

/// Every pixel with a fresh label.
pub open spec fn unlabeled(ps: Seq<PixelCieLab>) -> Seq<LabelPixel> {
    Seq::new(
        ps.len(),
        |i: int| LabelPixel { pixel: ps[i], centroid_distance: u128::MAX, centroid_index: None },
    )
}

/// The assignment step: every label set to its nearest centroid.
pub open spec fn assignment_step(labels: Seq<LabelPixel>, cs: Seq<PixelCieLab>, m: int, s: int) -> Seq<
    LabelPixel,
> {
    Seq::new(labels.len(), |i: int| assigned_label(labels[i], cs, m, s))
}

/// `lp` carries a cluster index below `k`.
pub open spec fn labeled_below(lp: LabelPixel, k: int) -> bool {
    lp.centroid_index matches Some(c) && c < k
}

/// `lp` is labeled with cluster `j`.
pub open spec fn labeled_with(lp: LabelPixel, j: int) -> bool {
    lp.centroid_index matches Some(c) && c == j
}

/// The pixels labeled with cluster `j`, in the order of `labels`.
pub open spec fn members(labels: Seq<LabelPixel>, j: int) -> Seq<PixelCieLab>
    decreases labels.len(),
{
    if labels.len() == 0 {
        Seq::empty()
    } else {
        let rest = members(labels.drop_last(), j);
        if labeled_with(labels.last(), j) {
            rest.push(labels.last().pixel)
        } else {
            rest
        }
    }
}

/// Number of members over the clusters `0..k`.
pub open spec fn total_members(labels: Seq<LabelPixel>, k: int) -> int
    decreases k,
{
    if k <= 0 {
        0
    } else {
        total_members(labels, k - 1) + members(labels, k - 1).len()
    }
}

/// Centroid `j` after the update step: the mean position and the mean color of its
/// members; a cluster without members moves to `(0, 0)` and keeps its color.
pub open spec fn updated_centroid(labels: Seq<LabelPixel>, c: PixelCieLab, j: int) -> PixelCieLab {
    let ms = members(labels, j);
    if ms.len() == 0 {
        PixelCieLab { x: 0, y: 0, color: c.color }
    } else {
        PixelCieLab {
            x: center_of(ms).0 as u32,
            y: center_of(ms).1 as u32,
            color: average_color_of(ms),
        }
    }
}

/// The update step: every centroid replaced from the members of its cluster.
pub open spec fn update_step(labels: Seq<LabelPixel>, cs: Seq<PixelCieLab>) -> Seq<PixelCieLab> {
    Seq::new(cs.len(), |j: int| updated_centroid(labels, cs[j], j))
}

/// One tick: an assignment step, then an update step from its labels.
pub open spec fn tick(st: SolverState) -> SolverState {
    let labels = assignment_step(st.labels, st.centroids, st.m, st.s);
    SolverState {
        labels,
        centroids: update_step(labels, st.centroids),
        width: st.width,
        height: st.height,
        m: st.m,
        s: st.s,
    }
}

/// The state after `t` ticks from `st`.
pub open spec fn run_ticks(st: SolverState, t: nat) -> SolverState
    decreases t,
{
    if t == 0 {
        st
    } else {
        tick(run_ticks(st, (t - 1) as nat))
    }
}

/// The first reason, in order of checking, why no solver can be built from these
/// arguments; `None` when one can.
pub open spec fn construction_error(ps: Seq<PixelCieLab>, k: int, w: int, h: int) -> Option<
    SolverError,
> {
    if w == 0 || h == 0 {
        Some(SolverError::EmptyImage)
    } else if w > u32::MAX || h > u32::MAX {
        Some(SolverError::ImageTooLarge)
    } else if k == 0 {
        Some(SolverError::NoSuperpixels)
    } else if k > w * h {
        Some(SolverError::TooManySuperpixels)
    } else if !pixels_cover_image(ps, w, h) {
        Some(SolverError::InvalidPixels)
    } else {
        None
    }
}

/// A freshly built solver: seeded centroids and one assignment step done.
pub open spec fn initial_state(ps: Seq<PixelCieLab>, m: int, k: int, w: int, h: int) -> SolverState {
    let cs = initial_centroids(ps, w, h, k);
    let s = superpixel_size(w * h, k);
    SolverState {
        labels: assignment_step(unlabeled(ps), cs, m, s),
        centroids: cs,
        width: w,
        height: h,
        m,
        s,
    }
}

proof fn lemma_position_index(x1: int, y1: int, x2: int, y2: int, w: int, h: int)
    requires
        0 <= x1 < w,
        0 <= x2 < w,
        0 <= y1 < h,
        0 <= y2 < h,
    ensures
        0 <= position_index(x1, y1, w) < w * h,
        position_index(x1, y1, w) == position_index(x2, y2, w) ==> x1 == x2 && y1 == y2,
{
    assert(0 <= y1 * w + x1 < w * h) by (nonlinear_arith)
        requires
            0 <= x1 < w,
            0 <= y1 < h,
    ;
    if position_index(x1, y1, w) == position_index(x2, y2, w) {
        let idx = y1 * w + x1;
        lemma_fundamental_div_mod_converse(idx, w, y1, x1);
        lemma_fundamental_div_mod_converse(idx, w, y2, x2);
    }
}

proof fn lemma_members_take(labels: Seq<LabelPixel>, i: int, j: int)
    requires
        0 <= i < labels.len(),
    ensures
        members(labels.take(i + 1), j) == if labeled_with(labels[i], j) {
            members(labels.take(i), j).push(labels[i].pixel)
        } else {
            members(labels.take(i), j)
        },
{
    assert(labels.take(i + 1).drop_last() =~= labels.take(i));
}

/// The members of the clusters `0..k` add up to one more when one more pixel,
/// labeled below `k`, is counted.
proof fn lemma_total_members_push(labels: Seq<LabelPixel>, k: int)
    requires
        labels.len() > 0,
        k >= 0,
    ensures
        total_members(labels, k) == total_members(labels.drop_last(), k) + if labeled_below(
            labels.last(),
            k,
        ) {
            1int
        } else {
            0int
        },
    decreases k,
{
    if k > 0 {
        lemma_total_members_push(labels, k - 1);
    }
}

/// When every pixel is labeled below `k`, the clusters `0..k` hold all pixels.
proof fn lemma_total_members(labels: Seq<LabelPixel>, k: int)
    requires
        k >= 0,
        forall|i: int|
            0 <= i < labels.len() ==> labeled_below(#[trigger] labels[i], k),
    ensures
        total_members(labels, k) == labels.len(),
    decreases labels.len(),
{
    if labels.len() == 0 {
        lemma_total_members_empty(labels, k);
    } else {
        let rest = labels.drop_last();
        assert forall|i: int| 0 <= i < rest.len() implies labeled_below(#[trigger] rest[i], k) by {
            assert(rest[i] == labels[i]);
        }
        lemma_total_members(rest, k);
        lemma_total_members_push(labels, k);
        assert(labels.last() == labels[labels.len() - 1]);
    }
}

proof fn lemma_total_members_empty(labels: Seq<LabelPixel>, k: int)
    requires
        labels.len() == 0,
    ensures
        total_members(labels, k) == 0,
    decreases k,
{
    if k > 0 {
        lemma_total_members_empty(labels, k - 1);
    }
}

/// After an assignment step against at least one centroid, every pixel carries a
/// valid cluster index: no pixel stays unassigned.
pub proof fn lemma_assignment_labels_every_pixel(
    labels: Seq<LabelPixel>,
    cs: Seq<PixelCieLab>,
    m: int,
    s: int,
)
    requires
        cs.len() >= 1,
    ensures
        forall|i: int|
            0 <= i < labels.len() ==> labeled_below(
                #[trigger] assignment_step(labels, cs, m, s)[i],
                cs.len() as int,
            ),
{
    assert forall|i: int| 0 <= i < labels.len() implies labeled_below(
        #[trigger] assignment_step(labels, cs, m, s)[i],
        cs.len() as int,
    ) by {
        crate::assign::lemma_nearest_centroid(labels[i].pixel, cs, m, s);
    }
}

/// After an assignment step the member counts of all clusters add up to the number
/// of pixels.
pub proof fn lemma_assignment_conserves_pixels(
    labels: Seq<LabelPixel>,
    cs: Seq<PixelCieLab>,
    m: int,
    s: int,
)
    requires
        cs.len() >= 1,
    ensures
        total_members(assignment_step(labels, cs, m, s), cs.len() as int) == labels.len(),
{
    lemma_assignment_labels_every_pixel(labels, cs, m, s);
    lemma_total_members(assignment_step(labels, cs, m, s), cs.len() as int);
}

/// The superpixels of a state: for cluster `j`, the position of each member with the
/// color of centroid `j`.
pub open spec fn superpixel(st: SolverState, j: int) -> Seq<(u32, u32, ColorCieLab)> {
    let ms = members(st.labels, j);
    Seq::new(ms.len(), |i: int| (ms[i].x, ms[i].y, st.centroids[j].color))
}

proof fn lemma_pixel_at(ps: Seq<PixelCieLab>, w: int, h: int, i: int)
    requires
        pixels_cover_image(ps, w, h),
        0 <= i < ps.len(),
    ensures
        pixel_at(ps, ps[i].x as int, ps[i].y as int) == ps[i],
{
    let x = ps[i].x as int;
    let y = ps[i].y as int;
    assert(0 <= i < ps.len() && ps[i].x == x && ps[i].y == y);
    let j = choose|j: int| 0 <= j < ps.len() && #[trigger] ps[j].x == x && ps[j].y == y;
    if j < i {
        assert(!(ps[j].x == ps[i].x && ps[j].y == ps[i].y));
    } else if i < j {
        assert(!(ps[i].x == ps[j].x && ps[i].y == ps[j].y));
    }
}

/// Two solvers built from the same pixels and parameters hold the same labels and
/// centroids after any number of ticks.
pub proof fn lemma_runs_are_deterministic(
    ps1: Seq<PixelCieLab>,
    ps2: Seq<PixelCieLab>,
    m: int,
    k: int,
    w: int,
    h: int,
    t: nat,
)
    requires
        ps1 == ps2,
    ensures
        run_ticks(initial_state(ps1, m, k, w, h), t) == run_ticks(initial_state(ps2, m, k, w, h), t),
{
}

/// Linear index of `(x, y)` in an image `width` pixels wide.
fn get_index(x: usize, y: usize, width: usize) -> (idx: usize)
    requires
        y * width + x <= usize::MAX,
    ensures
        idx == position_index(x as int, y as int, width as int),
{
    y * width + x
}

/// The expected spacing between centroids for `superpixel_count` clusters over
/// `pixel_count` pixels.
fn calculate_superpixel_size(pixel_count: usize, superpixel_count: usize) -> (s: u32)
    requires
        1 <= superpixel_count <= pixel_count,
    ensures
        s == superpixel_size(pixel_count as int, superpixel_count as int),
        1 <= s,
{
    let q: usize = pixel_count / superpixel_count;
    let r: u128 = integer_sqrt(q as u128);
    proof {
        assert(r < 0x1_0000_0000) by (nonlinear_arith)
            requires
                r * r <= q,
                q < 0x1_0000_0000_0000_0000int,
                0 <= r,
        ;
    }
    if r % 2 == 1 {
        r as u32
    } else {
        (r + 1) as u32
    }
}

/// For each position of the image, the index in `pixels` of the pixel there; `None`
/// when the pixels are not exactly one per position.
fn index_pixels(pixels: &Vec<PixelCieLab>, width: usize, height: usize) -> (grid: Option<Vec<usize>>)
    requires
        1 <= width,
        1 <= height,
        width * height <= usize::MAX,
    ensures
        grid.is_some() <==> pixels_cover_image(pixels@, width as int, height as int),
        grid matches Some(g) ==> {
            &&& g@.len() == width * height
            &&& forall|x: int, y: int|
                0 <= x < width && 0 <= y < height ==> {
                    let i = #[trigger] g@[position_index(x, y, width as int)] as int;
                    &&& 0 <= i < pixels@.len()
                    &&& pixels@[i].x == x
                    &&& pixels@[i].y == y
                }
        },
{
    let n: usize = width * height;
    let ghost (w, h) = (width as int, height as int);
    if pixels.len() != n {
        return None;
    }
    let mut grid: Vec<usize> = vec![n; n];
    let mut i: usize = 0;
    while i < n
        invariant
            0 <= i <= n,
            n == pixels@.len(),
            n == w * h,
            w == width,
            h == height,
            1 <= w,
            1 <= h,
            grid@.len() == n,
            forall|a: int|
                0 <= a < i ==> {
                    &&& (#[trigger] pixels@[a]).x < w
                    &&& pixels@[a].y < h
                    &&& grid@[position_index(pixels@[a].x as int, pixels@[a].y as int, w)] == a
                },
            forall|idx: int|
                0 <= idx < n ==> #[trigger] grid@[idx] == n || (grid@[idx] < i && position_index(
                    pixels@[grid@[idx] as int].x as int,
                    pixels@[grid@[idx] as int].y as int,
                    w,
                ) == idx),
        decreases n - i,
    {
        let p = pixels[i];
        if p.x as usize >= width || p.y as usize >= height {
            proof {
                assert(!(pixels@[i as int].x < w && pixels@[i as int].y < h));
            }
            return None;
        }
        proof {
            lemma_position_index(p.x as int, p.y as int, p.x as int, p.y as int, w, h);
        }
        let idx = get_index(p.x as usize, p.y as usize, width);
        if grid[idx] != n {
            proof {
                let a = grid@[idx as int] as int;
                let q = pixels@[a];
                assert(q.x < w && q.y < h);
                lemma_position_index(q.x as int, q.y as int, p.x as int, p.y as int, w, h);
                assert(q.x == p.x && q.y == p.y);
                assert(pixels@[a].x == pixels@[i as int].x && pixels@[a].y == pixels@[i as int].y);
            }
            return None;
        }
        grid.set(idx, i);
        proof {
            assert forall|a: int| 0 <= a < i + 1 implies {
                &&& (#[trigger] pixels@[a]).x < w
                &&& pixels@[a].y < h
                &&& grid@[position_index(pixels@[a].x as int, pixels@[a].y as int, w)] == a
            } by {
                if a < i {
                    let q = pixels@[a];
                    lemma_position_index(q.x as int, q.y as int, p.x as int, p.y as int, w, h);
                }
            }
        }
        i = i + 1;
    }
    let mut t: usize = 0;
    while t < n
        invariant
            0 <= t <= n,
            n == pixels@.len(),
            n == w * h,
            w == width,
            h == height,
            1 <= w,
            1 <= h,
            grid@.len() == n,
            forall|a: int|
                0 <= a < n ==> {
                    &&& (#[trigger] pixels@[a]).x < w
                    &&& pixels@[a].y < h
                    &&& grid@[position_index(pixels@[a].x as int, pixels@[a].y as int, w)] == a
                },
            forall|idx: int|
                0 <= idx < n ==> #[trigger] grid@[idx] == n || (grid@[idx] < n && position_index(
                    pixels@[grid@[idx] as int].x as int,
                    pixels@[grid@[idx] as int].y as int,
                    w,
                ) == idx),
            forall|idx: int| 0 <= idx < t ==> #[trigger] grid@[idx] < n,
        decreases n - t,
    {
        if grid[t] == n {
            proof {
                let ti = t as int;
                let x = ti % w;
                let y = ti / w;
                vstd::arithmetic::div_mod::lemma_fundamental_div_mod(ti, w);
                assert(0 <= y < h) by (nonlinear_arith)
                    requires
                        0 <= ti < w * h,
                        1 <= w,
                        y == ti / w,
                        ti == w * y + ti % w,
                        0 <= ti % w,
                ;
                if has_pixel_at(pixels@, x, y) {
                    let a = choose|a: int| 0 <= a < pixels@.len() && #[trigger] pixels@[a].x == x && pixels@[a].y == y;
                    assert(position_index(x, y, w) == ti) by (nonlinear_arith)
                        requires
                            ti == w * y + x,
                    ;
                    assert(grid@[t as int] == a);
                }
            }
            return None;
        }
        t = t + 1;
    }
    proof {
        assert forall|a: int, b: int| 0 <= a < b < pixels@.len() implies !(#[trigger] pixels@[a].x
            == #[trigger] pixels@[b].x && pixels@[a].y == pixels@[b].y) by {
            assert(pixels@[a].x < w && pixels@[b].x < w);
        }
        assert forall|x: int, y: int| 0 <= x < w && 0 <= y < h implies #[trigger] has_pixel_at(
            pixels@,
            x,
            y,
        ) by {
            lemma_position_index(x, y, x, y, w, h);
            let idx = position_index(x, y, w);
            let a = grid@[idx] as int;
            assert(grid@[idx] < n);
            let q = pixels@[a];
            assert(q.x < w && q.y < h);
            lemma_position_index(q.x as int, q.y as int, x, y, w, h);
            assert(0 <= a < pixels@.len() && pixels@[a].x == x && pixels@[a].y == y);
        }
        assert forall|x: int, y: int| 0 <= x < width && 0 <= y < height implies {
            let i = #[trigger] grid@[position_index(x, y, width as int)] as int;
            &&& 0 <= i < pixels@.len()
            &&& pixels@[i].x == x
            &&& pixels@[i].y == y
        } by {
            lemma_position_index(x, y, x, y, w, h);
            let idx = position_index(x, y, w);
            let a = grid@[idx] as int;
            assert(grid@[idx] < n);
            let q = pixels@[a];
            assert(q.x < w && q.y < h);
            lemma_position_index(q.x as int, q.y as int, x, y, w, h);
        }
    }
    Some(grid)
}

/// The pixel at each seed position, in seed order.
fn calculate_initial_centroids(
    pixels: &Vec<PixelCieLab>,
    grid: &Vec<usize>,
    width: usize,
    height: usize,
    k: usize,
) -> (centroids: Vec<PixelCieLab>)
    requires
        1 <= k <= width * height <= usize::MAX,
        width <= u32::MAX,
        height <= u32::MAX,
        pixels_cover_image(pixels@, width as int, height as int),
        grid@.len() == width * height,
        forall|x: int, y: int|
            0 <= x < width && 0 <= y < height ==> {
                let i = #[trigger] grid@[position_index(x, y, width as int)] as int;
                &&& 0 <= i < pixels@.len()
                &&& pixels@[i].x == x
                &&& pixels@[i].y == y
            },
    ensures
        centroids@ == initial_centroids(pixels@, width as int, height as int, k as int),
{
    let ghost (w, h) = (width as int, height as int);
    let rect = Rectangle::new(width as u32, height as u32);
    let positions = rect.sample_positions(k as u64);
    let mut centroids: Vec<PixelCieLab> = Vec::new();
    let mut t: usize = 0;
    while t < k
        invariant
            0 <= t <= k,
            positions@.len() == k,
            forall|u: int| 0 <= u < k ==> is_seed(w, h, k as int, u, #[trigger] positions@[u]),
            w == width,
            h == height,
            w * h <= usize::MAX,
            pixels_cover_image(pixels@, w, h),
            grid@.len() == w * h,
            forall|x: int, y: int|
                0 <= x < w && 0 <= y < h ==> {
                    let i = #[trigger] grid@[position_index(x, y, w)] as int;
                    &&& 0 <= i < pixels@.len()
                    &&& pixels@[i].x == x
                    &&& pixels@[i].y == y
                },
            centroids@.len() == t,
            forall|u: int|
                0 <= u < t ==> #[trigger] centroids@[u] == pixel_at(
                    pixels@,
                    seed_position(w, h, k as int, u).0,
                    seed_position(w, h, k as int, u).1,
                ),
        decreases k - t,
    {
        let (x, y) = positions[t];
        proof {
            assert(is_seed(w, h, k as int, t as int, positions@[t as int]));
            lemma_position_index(x as int, y as int, x as int, y as int, w, h);
        }
        let i = grid[get_index(x as usize, y as usize, width)];
        proof {
            lemma_pixel_at(pixels@, w, h, i as int);
        }
        centroids.push(pixels[i]);
        t = t + 1;
    }
    proof {
        assert(centroids@ =~= initial_centroids(pixels@, w, h, k as int));
    }
    centroids
}

/// A k-means superpixel solver: it owns the labeled pixels of one image and the
/// current centroids, and moves them one tick at a time.
pub struct KMeansSuperPixelSolver {
    flat_pixels: Vec<LabelPixel>,
    centroids: Vec<PixelCieLab>,
    /// image height
    height: usize,
    /// image width
    width: usize,
    /// compactness of the superpixels, 10 being a good value
    m: u8,
    /// expected spacing between centroids
    s: u32,
    /// number of pixels
    n: usize,
    /// number of clusters
    k: usize,
}

impl View for KMeansSuperPixelSolver {
    type V = SolverState;

    closed spec fn view(&self) -> SolverState {
        SolverState {
            labels: self.flat_pixels@,
            centroids: self.centroids@,
            width: self.width as int,
            height: self.height as int,
            m: self.m as int,
            s: self.s as int,
        }
    }
}

impl KMeansSuperPixelSolver {
    /// The solver's sizes agree with its contents: `k` centroids, at least one and
    /// at most one per pixel, and one label for each of the image's pixels.
    pub closed spec fn wf(&self) -> bool {
        &&& self.k == self.centroids@.len()
        &&& 1 <= self.k <= self.n
        &&& self.n == self.flat_pixels@.len()
        &&& self.n == self.width * self.height
    }

    /// A well-formed solver has at least one centroid, no more centroids than pixels,
    /// and one label for each pixel of its image.
    pub proof fn lemma_wf_sizes(&self)
        requires
            self.wf(),
        ensures
            1 <= self@.centroids.len() <= self@.labels.len(),
            self@.labels.len() == self@.width * self@.height,
    {
    }

    /// Builds a solver over `pixels` (one per position of an `image_width ×
    /// image_height` image, in any order): seeds `superpixel_count` centroids on the
    /// grid layout and runs a first assignment step.
    pub fn new(
        pixels: Vec<PixelCieLab>,
        compactness: u8,
        superpixel_count: usize,
        image_width: usize,
        image_height: usize,
    ) -> (r: Result<KMeansSuperPixelSolver, SolverError>)
        ensures
            match r {
                Ok(solver) => {
                    &&& construction_error(
                        pixels@,
                        superpixel_count as int,
                        image_width as int,
                        image_height as int,
                    ).is_none()
                    &&& solver.wf()
                    &&& solver@ == initial_state(
                        pixels@,
                        compactness as int,
                        superpixel_count as int,
                        image_width as int,
                        image_height as int,
                    )
                    &&& solver@.centroids.len() == superpixel_count
                    &&& forall|i: int|
                        0 <= i < solver@.labels.len() ==> labeled_below(
                            #[trigger] solver@.labels[i],
                            superpixel_count as int,
                        )
                },
                Err(e) => construction_error(
                    pixels@,
                    superpixel_count as int,
                    image_width as int,
                    image_height as int,
                ) == Some(e),
            },
    {
        let ghost (w, h, k) = (image_width as int, image_height as int, superpixel_count as int);
        if image_width == 0 || image_height == 0 {
            return Err(SolverError::EmptyImage);
        }
        if image_width > u32::MAX as usize || image_height > u32::MAX as usize {
            return Err(SolverError::ImageTooLarge);
        }
        proof {
            assert(w * h < 0x1_0000_0000_0000_0000int) by (nonlinear_arith)
                requires
                    0 <= w <= u32::MAX,
                    0 <= h <= u32::MAX,
            ;
        }
        let area: u64 = image_width as u64 * image_height as u64;
        if superpixel_count == 0 {
            return Err(SolverError::NoSuperpixels);
        }
        if superpixel_count as u64 > area {
            return Err(SolverError::TooManySuperpixels);
        }
        if pixels.len() as u64 != area {
            return Err(SolverError::InvalidPixels);
        }
        let n: usize = pixels.len();
        let grid = match index_pixels(&pixels, image_width, image_height) {
            Some(g) => g,
            None => {
                return Err(SolverError::InvalidPixels);
            },
        };
        let s = calculate_superpixel_size(n, superpixel_count);
        let centroids = calculate_initial_centroids(
            &pixels,
            &grid,
            image_width,
            image_height,
            superpixel_count,
        );
        let mut labels: Vec<LabelPixel> = Vec::new();
        let mut i: usize = 0;
        while i < n
            invariant
                0 <= i <= n,
                n == pixels@.len(),
                labels@ =~= unlabeled(pixels@).take(i as int),
            decreases n - i,
        {
            labels.push(LabelPixel::new(pixels[i]));
            i = i + 1;
        }
        proof {
            assert(labels@ =~= unlabeled(pixels@));
        }
        let mut solver = KMeansSuperPixelSolver {
            flat_pixels: labels,
            centroids,
            height: image_height,
            width: image_width,
            m: compactness,
            s,
            n,
            k: superpixel_count,
        };
        solver.assign_pixels_to_superpixels();
        Ok(solver)
    }

    /// The compactness `m`.
    pub fn m(&self) -> (m: u8)
        ensures
            m == self@.m,
    {
        self.m
    }

    /// The current centroids; the index of each is its cluster's identifier.
    pub fn centroids(&self) -> (cs: &Vec<PixelCieLab>)
        ensures
            cs@ == self@.centroids,
    {
        &self.centroids
    }

    /// The labeled pixels.
    pub fn pixels(&self) -> (ps: &Vec<LabelPixel>)
        ensures
            ps@ == self@.labels,
    {
        &self.flat_pixels
    }

    /// The assignment step: every pixel's label is reset and set to its nearest
    /// centroid, over all pixels in parallel.
    fn assign_pixels_to_superpixels(&mut self)
        requires
            old(self).wf(),
        ensures
            final(self).wf(),
            final(self)@ == (SolverState {
                labels: assignment_step(
                    old(self)@.labels,
                    old(self)@.centroids,
                    old(self)@.m,
                    old(self)@.s,
                ),
                ..old(self)@
            }),
            forall|i: int|
                0 <= i < final(self)@.labels.len() ==> labeled_below(
                    #[trigger] final(self)@.labels[i],
                    final(self)@.centroids.len() as int,
                ),
    {
        assign_all_in_parallel(&mut self.flat_pixels, &self.centroids, self.m, self.s);
        proof {
            lemma_assignment_labels_every_pixel(
                old(self)@.labels,
                old(self)@.centroids,
                old(self)@.m,
                old(self)@.s,
            );
            assert(self.flat_pixels@ =~= assignment_step(
                old(self)@.labels,
                old(self)@.centroids,
                old(self)@.m,
                old(self)@.s,
            ));
        }
    }

    /// The members of each cluster, in pixel order.
    fn clusters(&self) -> (clusters: Vec<PixelCluster>)
        requires
            self.wf(),
        ensures
            clusters@.len() == self.k,
            forall|j: int|
                0 <= j < self.k ==> (#[trigger] clusters@[j]).pixels@ == members(
                    self.flat_pixels@,
                    j,
                ),
    {
        let k = self.k;
        let n = self.n;
        let ghost labels = self.flat_pixels@;
        let mut clusters: Vec<PixelCluster> = Vec::new();
        let mut j: usize = 0;
        while j < k
            invariant
                0 <= j <= k,
                clusters@.len() == j,
                forall|c: int| 0 <= c < j ==> (#[trigger] clusters@[c]).pixels@ == Seq::<PixelCieLab>::empty(),
            decreases k - j,
        {
            clusters.push(PixelCluster::new(Vec::new()));
            j = j + 1;
        }
        proof {
            assert forall|c: int| 0 <= c < k implies (#[trigger] clusters@[c]).pixels@ == members(labels.take(0), c) by {
                assert(labels.take(0).len() == 0);
            }
        }
        let mut i: usize = 0;
        while i < n
            invariant
                0 <= i <= n,
                n == labels.len(),
                labels == self.flat_pixels@,
                k == self.k,
                clusters@.len() == k,
                forall|c: int|
                    0 <= c < k ==> (#[trigger] clusters@[c]).pixels@ == members(labels.take(i as int), c),
            decreases n - i,
        {
            let lp = self.flat_pixels[i];
            match lp.centroid_index {
                Some(c) => {
                    if c < k {
                        clusters[c].pixels.push(lp.pixel);
                    }
                },
                None => {},
            }
            proof {
                assert forall|c: int| 0 <= c < k implies (#[trigger] clusters@[c]).pixels@ == members(labels.take(i + 1), c) by {
                    lemma_members_take(labels, i as int, c);
                }
            }
            i = i + 1;
        }
        proof {
            assert(labels.take(n as int) =~= labels);
        }
        clusters
    }

    /// The update step: each centroid is replaced by the mean position and mean color
    /// of its members; a cluster without members moves to `(0, 0)` and keeps its color.
    fn update_centroids(&mut self)
        requires
            old(self).wf(),
        ensures
            final(self).wf(),
            final(self)@ == (SolverState {
                centroids: update_step(old(self)@.labels, old(self)@.centroids),
                ..old(self)@
            }),
    {
        let clusters = self.clusters();
        let k = self.k;
        let mut centroids: Vec<PixelCieLab> = Vec::new();
        let mut j: usize = 0;
        while j < k
            invariant
                0 <= j <= k,
                k == self.k,
                self.wf(),
                clusters@.len() == k,
                forall|c: int|
                    0 <= c < k ==> (#[trigger] clusters@[c]).pixels@ == members(
                        self.flat_pixels@,
                        c,
                    ),
                centroids@.len() == j,
                forall|c: int|
                    0 <= c < j ==> #[trigger] centroids@[c] == updated_centroid(
                        self.flat_pixels@,
                        self.centroids@[c],
                        c,
                    ),
            decreases k - j,
        {
            let cluster = &clusters[j];
            let center = cluster.calculate_center();
            let color = match cluster.average_color() {
                Some(c) => c,
                None => self.centroids[j].color,
            };
            proof {
                assert(clusters@[j as int].pixels@ == members(self.flat_pixels@, j as int));
            }
            centroids.push(PixelCieLab { x: center.0, y: center.1, color });
            j = j + 1;
        }
        proof {
            assert(centroids@ =~= update_step(self.flat_pixels@, self.centroids@));
        }
        self.centroids = centroids;
    }

    /// One tick: an assignment step, then an update step.
    pub fn solve_tick(&mut self)
        requires
            old(self).wf(),
        ensures
            final(self).wf(),
            final(self)@ == tick(old(self)@),
            forall|i: int|
                0 <= i < final(self)@.labels.len() ==> labeled_below(
                    #[trigger] final(self)@.labels[i],
                    final(self)@.centroids.len() as int,
                ),
    {
        self.assign_pixels_to_superpixels();
        self.update_centroids();
    }

    /// For each cluster index, its members as `(x, y, color)` with the color of the
    /// cluster's centroid.
    pub fn current_superpixels(&self) -> (superpixels: Vec<Vec<(u32, u32, ColorCieLab)>>)
        requires
            self.wf(),
        ensures
            superpixels@.len() == self@.centroids.len(),
            forall|j: int|
                0 <= j < superpixels@.len() ==> (#[trigger] superpixels@[j])@ == superpixel(
                    self@,
                    j,
                ),
    {
        let clusters = self.clusters();
        let k = self.k;
        let mut result: Vec<Vec<(u32, u32, ColorCieLab)>> = Vec::new();
        let mut j: usize = 0;
        while j < k
            invariant
                0 <= j <= k,
                k == self.k,
                self.wf(),
                clusters@.len() == k,
                forall|c: int|
                    0 <= c < k ==> (#[trigger] clusters@[c]).pixels@ == members(
                        self.flat_pixels@,
                        c,
                    ),
                result@.len() == j,
                forall|c: int| 0 <= c < j ==> (#[trigger] result@[c])@ == superpixel(self@, c),
            decreases k - j,
        {
            let members_j = &clusters[j].pixels;
            let color = self.centroids[j].color;
            let mut cluster: Vec<(u32, u32, ColorCieLab)> = Vec::new();
            let mut i: usize = 0;
            while i < members_j.len()
                invariant
                    0 <= i <= members_j@.len(),
                    members_j@ == members(self.flat_pixels@, j as int),
                    color == self@.centroids[j as int].color,
                    cluster@.len() == i,
                    forall|t: int|
                        0 <= t < i ==> #[trigger] cluster@[t] == superpixel(self@, j as int)[t],
                decreases members_j@.len() - i,
            {
                cluster.push((members_j[i].x, members_j[i].y, color));
                i = i + 1;
            }
            proof {
                assert(cluster@ =~= superpixel(self@, j as int));
            }
            result.push(cluster);
            j = j + 1;
        }
        result
    }
}

} // verus!
