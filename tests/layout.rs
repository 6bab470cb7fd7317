use superpixel::{clustered_file_path, Grid, Rectangle};

#[test]
fn test_rect_sampling() {
    // Arrange
    let rect = Rectangle::new(20, 30);

    // Act
    let actual = rect.sample_positions(10);
    println!("{:?}", actual);
    assert_eq!(10, actual.len())
}

#[test]
fn sampling_with_a_partial_column() {
    // round(sqrt(10 * 20 / 30)) = 3 columns of 3 rows leave one seed over: two full
    // columns 6 wide, then a last column of 4 seeds
    let actual = Rectangle::new(20, 30).sample_positions(10);
    assert_eq!(
        actual,
        vec![
            (3, 5),
            (3, 15),
            (3, 25),
            (9, 5),
            (9, 15),
            (9, 25),
            (15, 3),
            (15, 10),
            (15, 17),
            (15, 24)
        ]
    );
}

#[test]
fn sampling_an_exact_grid() {
    let actual = Rectangle::new(20, 20).sample_positions(4);
    assert_eq!(actual, vec![(5, 5), (5, 15), (15, 5), (15, 15)]);
}

#[test]
fn sampling_thin_rectangles() {
    assert_eq!(Rectangle::new(100, 1).sample_positions(2), vec![(25, 0), (75, 0)]);
    assert_eq!(Rectangle::new(1, 100).sample_positions(1), vec![(0, 50)]);
    assert_eq!(Rectangle::new(1, 1).sample_positions(1), vec![(0, 0)]);
    assert_eq!(Rectangle::new(3, 1).sample_positions(3), vec![(0, 0), (1, 0), (2, 0)]);
}

#[test]
fn sampling_gives_k_positions_inside_the_image() {
    for (w, h) in [(1u32, 1u32), (2, 3), (7, 5), (20, 30), (64, 48), (3, 200), (200, 3)] {
        for k in 1..=(w * h).min(60) {
            let positions = Rectangle::new(w, h).sample_positions(k as u64);
            assert_eq!(positions.len(), k as usize, "w={} h={} k={}", w, h, k);
            for (x, y) in positions {
                assert!(x < w && y < h, "w={} h={} k={} ({}, {})", w, h, k, x, y);
            }
        }
    }
}

#[test]
fn sampling_every_pixel_of_a_small_image() {
    let positions = Rectangle::new(4, 4).sample_positions(16);
    assert_eq!(positions.len(), 16);
    let mut seen = positions.clone();
    seen.sort();
    seen.dedup();
    assert_eq!(seen.len(), 16);
}

#[test]
fn simple_grid_should_work() {
    // Arrange
    let grid = Grid::new((0, 0), 2, 4, 4);

    assert_eq!(4, grid.points().len())
}

#[test]
fn grid_window_positions() {
    let grid = Grid::new((5, 5), 1, 10, 10);
    assert_eq!(grid.points(), &vec![(4, 4), (4, 5), (5, 4), (5, 5)]);
    let edge = Grid::new((9, 0), 2, 10, 10);
    assert_eq!(edge.points(), &vec![(7, 0), (7, 1), (8, 0), (8, 1), (9, 0), (9, 1)]);
    assert!(Grid::new((3, 3), 0, 10, 10).points().is_empty());
}

#[test]
fn clustered_path_replaces_extension() {
    assert_eq!(clustered_file_path(&String::from("photo.png")), "photo_clustered.jpg");
    assert_eq!(clustered_file_path(&String::from("a.b.c")), "a_clustered.jpg");
    assert_eq!(clustered_file_path(&String::from("noext")), "noext_clustered.jpg");
    assert_eq!(clustered_file_path(&String::from("")), "_clustered.jpg");
}
