use superpixel::{ColorCieLab, KMeansSuperPixelSolver, PixelCieLab, SolverError};

const RED: ColorCieLab = ColorCieLab { l: 5324, a: 8009, b: 6720 };
const BLUE: ColorCieLab = ColorCieLab { l: 3230, a: 7919, b: -10786 };

fn image(width: u32, height: u32, color: impl Fn(u32, u32) -> ColorCieLab) -> Vec<PixelCieLab> {
    let mut pixels = Vec::new();
    for y in 0..height {
        for x in 0..width {
            pixels.push(PixelCieLab::new(x, y, color(x, y)));
        }
    }
    pixels
}

fn gradient(x: u32, y: u32) -> ColorCieLab {
    ColorCieLab::new((x * 300 + y * 70) as i32, (x as i32 - y as i32) * 150, (x * y) as i32 * 20)
}

fn partition(solver: &KMeansSuperPixelSolver) -> Vec<Vec<(u32, u32)>> {
    solver
        .current_superpixels()
        .iter()
        .map(|c| {
            let mut members: Vec<(u32, u32)> = c.iter().map(|&(x, y, _)| (x, y)).collect();
            members.sort();
            members
        })
        .collect()
}

#[test]
fn construction_errors() {
    let pixels = image(4, 4, |_, _| RED);
    assert_eq!(KMeansSuperPixelSolver::new(vec![], 10, 1, 0, 4).err(), Some(SolverError::EmptyImage));
    assert_eq!(KMeansSuperPixelSolver::new(vec![], 10, 1, 4, 0).err(), Some(SolverError::EmptyImage));
    // more pixels than u32::MAX is a valid size: here only the pixels are missing
    assert_eq!(
        KMeansSuperPixelSolver::new(vec![], 10, 1, 70_000, 70_000).err(),
        Some(SolverError::InvalidPixels)
    );
    assert_eq!(
        KMeansSuperPixelSolver::new(vec![], 10, 5_000_000_000, 70_000, 70_000).err(),
        Some(SolverError::TooManySuperpixels)
    );
    assert_eq!(
        KMeansSuperPixelSolver::new(vec![], 10, 1, 1, 1 << 33).err(),
        Some(SolverError::ImageTooLarge)
    );
    assert_eq!(
        KMeansSuperPixelSolver::new(vec![], 10, 1, 1 << 33, 1).err(),
        Some(SolverError::ImageTooLarge)
    );
    assert_eq!(
        KMeansSuperPixelSolver::new(pixels.clone(), 10, 0, 4, 4).err(),
        Some(SolverError::NoSuperpixels)
    );
    assert_eq!(
        KMeansSuperPixelSolver::new(pixels.clone(), 10, 17, 4, 4).err(),
        Some(SolverError::TooManySuperpixels)
    );
    assert!(KMeansSuperPixelSolver::new(pixels.clone(), 10, 16, 4, 4).is_ok());
}

#[test]
fn invalid_pixel_sets_are_rejected() {
    let pixels = image(4, 4, |_, _| RED);
    // one pixel missing
    let mut missing = pixels.clone();
    missing.pop();
    assert_eq!(KMeansSuperPixelSolver::new(missing, 10, 2, 4, 4).err(), Some(SolverError::InvalidPixels));
    // a position outside the image
    let mut outside = pixels.clone();
    outside[3] = PixelCieLab::new(4, 0, RED);
    assert_eq!(KMeansSuperPixelSolver::new(outside, 10, 2, 4, 4).err(), Some(SolverError::InvalidPixels));
    // the same position twice
    let mut twice = pixels.clone();
    twice[5] = PixelCieLab::new(0, 0, RED);
    assert_eq!(KMeansSuperPixelSolver::new(twice, 10, 2, 4, 4).err(), Some(SolverError::InvalidPixels));
}

#[test]
fn seeds_take_the_color_of_their_pixel() {
    let solver = KMeansSuperPixelSolver::new(image(20, 30, gradient), 10, 10, 20, 30).unwrap();
    let seeds: Vec<(u32, u32)> = vec![
        (3, 5),
        (3, 15),
        (3, 25),
        (9, 5),
        (9, 15),
        (9, 25),
        (15, 3),
        (15, 10),
        (15, 17),
        (15, 24),
    ];
    let centroids = solver.centroids();
    assert_eq!(centroids.len(), 10);
    for (c, (x, y)) in centroids.iter().zip(seeds) {
        assert_eq!((c.x, c.y), (x, y));
        assert_eq!(c.color, gradient(x, y));
    }
    assert_eq!(solver.m(), 10);
}

#[test]
fn every_pixel_is_assigned_after_an_assignment_step() {
    let mut solver = KMeansSuperPixelSolver::new(image(13, 9, gradient), 10, 7, 13, 9).unwrap();
    for _ in 0..3 {
        for label in solver.pixels() {
            let j = label.centroid_index.expect("unassigned pixel");
            assert!(j < 7);
        }
        solver.solve_tick();
    }
}

#[test]
fn labels_hold_the_nearest_centroid() {
    let solver = KMeansSuperPixelSolver::new(image(8, 6, gradient), 5, 4, 8, 6).unwrap();
    let centroids = solver.centroids();
    for label in solver.pixels() {
        // s = sqrt(48 / 4) = 3, odd
        let distances: Vec<u128> =
            centroids.iter().map(|c| PixelCieLab::distance(&label.pixel, c, 5, 3)).collect();
        let best = *distances.iter().min().unwrap();
        let first = distances.iter().position(|&d| d == best).unwrap();
        assert_eq!(label.centroid_index, Some(first));
        assert_eq!(label.centroid_distance, best);
    }
}

#[test]
fn member_counts_add_up_to_the_pixel_count() {
    let mut solver = KMeansSuperPixelSolver::new(image(17, 11, gradient), 10, 9, 17, 11).unwrap();
    for _ in 0..4 {
        let total: usize = solver.current_superpixels().iter().map(|c| c.len()).sum();
        assert_eq!(total, 17 * 11);
        solver.solve_tick();
    }
}

#[test]
fn identical_inputs_give_identical_runs() {
    let mut a = KMeansSuperPixelSolver::new(image(16, 12, gradient), 10, 6, 16, 12).unwrap();
    let mut b = KMeansSuperPixelSolver::new(image(16, 12, gradient), 10, 6, 16, 12).unwrap();
    for _ in 0..5 {
        a.solve_tick();
        b.solve_tick();
        assert_eq!(a.centroids(), b.centroids());
        assert_eq!(a.pixels(), b.pixels());
        assert_eq!(a.current_superpixels(), b.current_superpixels());
    }
}

#[test]
fn pixel_order_does_not_change_the_partition() {
    let pixels = image(10, 10, gradient);
    let mut reversed = pixels.clone();
    reversed.reverse();
    let mut a = KMeansSuperPixelSolver::new(pixels, 10, 4, 10, 10).unwrap();
    let mut b = KMeansSuperPixelSolver::new(reversed, 10, 4, 10, 10).unwrap();
    for _ in 0..3 {
        a.solve_tick();
        b.solve_tick();
    }
    assert_eq!(a.centroids(), b.centroids());
    assert_eq!(partition(&a), partition(&b));
}

#[test]
fn two_flat_halves_become_two_clusters() {
    // red on the top two rows, blue on the bottom two
    let pixels = image(4, 4, |_, y| if y < 2 { RED } else { BLUE });
    let mut solver = KMeansSuperPixelSolver::new(pixels, 10, 2, 4, 4).unwrap();
    for _ in 0..5 {
        solver.solve_tick();
    }
    let superpixels = solver.current_superpixels();
    assert_eq!(superpixels.len(), 2);
    let top: Vec<(u32, u32)> = (0..2).flat_map(|y| (0..4).map(move |x| (x, y))).collect();
    let bottom: Vec<(u32, u32)> = (2..4).flat_map(|y| (0..4).map(move |x| (x, y))).collect();
    let mut expected_top = top.clone();
    expected_top.sort();
    let mut expected_bottom = bottom.clone();
    expected_bottom.sort();
    assert_eq!(partition(&solver), vec![expected_top, expected_bottom]);
    assert!(superpixels[0].iter().all(|&(_, _, c)| c == RED));
    assert!(superpixels[1].iter().all(|&(_, _, c)| c == BLUE));
    assert_eq!(solver.centroids()[0].color, RED);
    assert_eq!(solver.centroids()[1].color, BLUE);
    // mean positions, rounded down: x (0+1+2+3)/4 = 1, y (0+1)/2 = 0 and (2+3)/2 = 2
    assert_eq!((solver.centroids()[0].x, solver.centroids()[0].y), (1, 0));
    assert_eq!((solver.centroids()[1].x, solver.centroids()[1].y), (1, 2));
}

#[test]
fn ties_go_to_the_first_centroid_and_empty_clusters_move_to_the_origin() {
    // seeds at (0, 0) and (1, 0); with m = 0 and one flat color every distance is zero,
    // so every pixel goes to the first centroid and the second cluster is empty
    let mut solver = KMeansSuperPixelSolver::new(image(3, 1, |_, _| BLUE), 0, 2, 3, 1).unwrap();
    assert!(solver.pixels().iter().all(|l| l.centroid_index == Some(0)));
    solver.solve_tick();
    assert!(solver.pixels().iter().all(|l| l.centroid_index == Some(0)));
    assert_eq!(
        solver.centroids(),
        &vec![PixelCieLab::new(1, 0, BLUE), PixelCieLab::new(0, 0, BLUE)]
    );
    let sizes: Vec<usize> = solver.current_superpixels().iter().map(|c| c.len()).collect();
    assert_eq!(sizes, vec![3, 0]);
}
