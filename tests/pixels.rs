use superpixel::{ColorCieLab, ColorRgb, PixelCieLab, PixelCluster, LAB_SCALE};

#[test]
fn distance_between_equals_should_be_zero() {
    // Arrange
    let cie = ColorCieLab::new(100 * LAB_SCALE as i32, 50 * LAB_SCALE as i32, 40 * LAB_SCALE as i32);
    let a = PixelCieLab::new(1, 5, cie);
    let b = PixelCieLab::new(1, 5, cie);

    // Act
    let dist = PixelCieLab::distance(&a, &b, 10, 30);

    // Assert
    assert_eq!(dist, 0);
}

#[test]
fn self_distance_is_zero_for_any_parameters() {
    let colors = [
        ColorCieLab::new(0, 0, 0),
        ColorCieLab::new(5324, 8009, 6720),
        ColorCieLab::new(i32::MIN, i32::MAX, -1),
    ];
    for color in colors {
        for (x, y) in [(0u32, 0u32), (17, 3), (u32::MAX, u32::MAX)] {
            let p = PixelCieLab::new(x, y, color);
            for m in [0u8, 1, 10, 20, 255] {
                for s in [1u32, 3, 31, u32::MAX] {
                    assert_eq!(PixelCieLab::distance(&p, &p, m, s), 0);
                }
            }
        }
    }
}

#[test]
fn distance_weights_color_and_position() {
    // color differs by one Lab unit, position by (3, 4): 1 + (10 / 5) * 25 = 51,
    // scaled by LAB_SCALE² * s = 50000
    let a = PixelCieLab::new(0, 0, ColorCieLab::new(0, 0, 0));
    let b = PixelCieLab::new(3, 4, ColorCieLab::new(100, 0, 0));
    assert_eq!(PixelCieLab::distance(&a, &b, 10, 5), 51 * 50_000);
    assert_eq!(PixelCieLab::distance(&b, &a, 10, 5), 51 * 50_000);
    // without compactness only color counts
    assert_eq!(PixelCieLab::distance(&a, &b, 0, 5), 5 * 10_000);
}

#[test]
fn distance_at_extreme_values_does_not_overflow() {
    let a = PixelCieLab::new(0, 0, ColorCieLab::new(i32::MIN, i32::MIN, i32::MIN));
    let b = PixelCieLab::new(u32::MAX, u32::MAX, ColorCieLab::new(i32::MAX, i32::MAX, i32::MAX));
    let c = (u32::MAX as u128) * (u32::MAX as u128);
    let expected = (u32::MAX as u128) * 3 * c + 10_000 * 255 * 2 * c;
    assert_eq!(PixelCieLab::distance(&a, &b, 255, u32::MAX), expected);
}

#[test]
fn pixel_and_color_accessors() {
    let rgb = ColorRgb::new(1, 2, 3);
    assert_eq!((rgb.r(), rgb.g(), rgb.b()), (1, 2, 3));
    assert_eq!(rgb.values(), (1, 2, 3));
    let lab = ColorCieLab::new(-5, 6, -7);
    assert_eq!((lab.l(), lab.a(), lab.b()), (-5, 6, -7));
    assert_eq!(lab.values(), (-5, 6, -7));
    let p = PixelCieLab::new(8, 9, lab);
    assert_eq!((p.x(), p.y()), (8, 9));
    assert_eq!(p.values(), (8, 9));
    assert_eq!(*p.color(), lab);
}

#[test]
fn cluster_center_is_rounded_down_mean() {
    let c = ColorCieLab::new(0, 0, 0);
    let cluster = PixelCluster::new(vec![
        PixelCieLab::new(0, 0, c),
        PixelCieLab::new(1, 3, c),
        PixelCieLab::new(3, 4, c),
    ]);
    // x: 4 / 3 -> 1, y: 7 / 3 -> 2
    assert_eq!(cluster.calculate_center(), (1, 2));
    assert_eq!(PixelCluster::new(vec![]).calculate_center(), (0, 0));
}

#[test]
fn cluster_center_of_large_coordinates() {
    let c = ColorCieLab::new(0, 0, 0);
    let cluster = PixelCluster::new(vec![
        PixelCieLab::new(u32::MAX, u32::MAX, c),
        PixelCieLab::new(u32::MAX - 2, u32::MAX, c),
    ]);
    assert_eq!(cluster.calculate_center(), (u32::MAX - 1, u32::MAX));
}

#[test]
fn cluster_average_color_rounds_down() {
    let cluster = PixelCluster::new(vec![
        PixelCieLab::new(0, 0, ColorCieLab::new(10, -1, 7)),
        PixelCieLab::new(0, 0, ColorCieLab::new(13, -2, -8)),
    ]);
    // l: 23 / 2 -> 11, a: -3 / 2 -> -2, b: -1 / 2 -> -1
    assert_eq!(cluster.average_color(), Some(ColorCieLab::new(11, -2, -1)));
    assert_eq!(PixelCluster::new(vec![]).average_color(), None);
}

#[test]
fn cluster_average_color_at_extremes() {
    let cluster = PixelCluster::new(vec![
        PixelCieLab::new(0, 0, ColorCieLab::new(i32::MIN, i32::MAX, i32::MIN)),
        PixelCieLab::new(0, 0, ColorCieLab::new(i32::MIN, i32::MAX, i32::MAX)),
    ]);
    assert_eq!(cluster.average_color(), Some(ColorCieLab::new(i32::MIN, i32::MAX, -1)));
}
