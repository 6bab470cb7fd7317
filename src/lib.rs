//! Superpixel segmentation by k-means clustering over position and CIE-Lab color.

mod assign;
mod cluster;
mod colors;
mod grid;
mod k_means_solver;
mod pixels;
mod rect;
mod roots;

pub use crate::assign::{
    assigned_label, is_nearest, is_nearest_among, lemma_nearest_centroid, nearest_centroid,
    LabelPixel,
};
pub use crate::cluster::{
    average_color_of, center_of, channel, mean_of, sum_of, PixelCluster,
};
pub use crate::colors::{ColorCieLab, ColorRgb, LAB_SCALE};
pub use crate::grid::{clamp, window, window_point, Grid};
pub use crate::k_means_solver::{
    assignment_step, construction_error, initial_centroids, initial_state,
    lemma_assignment_conserves_pixels, lemma_assignment_labels_every_pixel,
    lemma_runs_are_deterministic, members, pixel_at, pixels_cover_image, run_ticks, superpixel,
    superpixel_size, tick, total_members, update_step, updated_centroid, KMeansSuperPixelSolver,
    SolverError, SolverState,
};
pub use crate::pixels::{
    color_distance2, lemma_scaled_distance_bound, lemma_self_distance_is_zero, scaled_distance,
    spatial_distance2, PixelCieLab,
};
pub use crate::rect::{is_seed, seed_position, Rectangle};
pub use crate::roots::{floor_sqrt, is_floor_sqrt};

use vstd::prelude::*;

verus! {

/// `i` is where the stem of a file path ends: at its first `.`, or at its end when
/// it has none.
pub open spec fn is_stem_end(path: Seq<char>, i: int) -> bool {
    &&& 0 <= i <= path.len()
    &&& forall|t: int| 0 <= t < i ==> path[t] != '.'
    &&& i < path.len() ==> path[i] == '.'
}

/// The path under which the clustered image of `path` is saved: the part of `path`
/// before its first `.`, followed by `_clustered.jpg`.
pub fn clustered_file_path(path: &String) -> (result: String)
    ensures
        exists|i: int|
            is_stem_end(path@, i) && result@ == path@.subrange(0, i) + "_clustered.jpg"@,
{
    let s = path.as_str();
    let n = s.unicode_len();
    let mut i: usize = 0;
    while i < n && s.get_char(i) != '.'
        invariant
            0 <= i <= n,
            n == path@.len(),
            s@ == path@,
            forall|t: int| 0 <= t < i ==> path@[t] != '.',
        decreases n - i,
    {
        i = i + 1;
    }
    let stem = s.substring_char(0, i);
    let result = String::from_str(stem).concat("_clustered.jpg");
    proof {
        assert(is_stem_end(path@, i as int));
    }
    result
}

} // verus!
