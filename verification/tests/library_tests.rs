use coordinate_transform::geometry::{Point, Rectangle, Size};
use coordinate_transform::surface::{BufferSurface, OutOfBounds};
use coordinate_transform::transform::{remap_point, remap_rect, remap_size, CoordinateTransform, TransformConfig};

#[test]
fn named_constructor_flags() {
    let table = [
        (TransformConfig::rotate_0(), false, false, false),
        (TransformConfig::mirror_x(), true, false, false),
        (TransformConfig::mirror_y(), false, true, false),
        (TransformConfig::mirror_xy(), true, true, false),
        (TransformConfig::transpose_xy(), false, false, true),
        (TransformConfig::rotate_90(), true, false, true),
        (TransformConfig::rotate_180(), true, true, false),
        (TransformConfig::rotate_270(), false, true, true),
    ];
    for (config, mx, my, tr) in table {
        assert_eq!(config.mirror_x, mx);
        assert_eq!(config.mirror_y, my);
        assert_eq!(config.transpose, tr);
        assert_eq!(config, TransformConfig::new(mx, my, tr));
    }
}

#[test]
fn coordinate_order_all_configs() {
    // Every configuration applies mirror-X, then mirror-Y, then transpose,
    // each measured in the logical 10 x 20 dimensions.
    for mx in [false, true] {
        for my in [false, true] {
            for tr in [false, true] {
                let config = TransformConfig::new(mx, my, tr);
                let p = Point::new(3, 7);
                let x1 = if mx { 10 - 1 - p.x } else { p.x };
                let y1 = if my { 20 - 1 - p.y } else { p.y };
                let expected = if tr { Point::new(y1, x1) } else { Point::new(x1, y1) };
                assert_eq!(remap_point(config, 10, 20, p), expected);
            }
        }
    }
}

#[test]
fn remap_point_exact_values() {
    assert_eq!(
        remap_point(TransformConfig::mirror_x(), 64, 64, Point::new(0, 0)),
        Point::new(63, 0)
    );
    assert_eq!(
        remap_point(TransformConfig::mirror_y(), 64, 64, Point::new(5, 2)),
        Point::new(5, 61)
    );
    assert_eq!(
        remap_point(TransformConfig::rotate_90(), 64, 32, Point::new(1, 2)),
        Point::new(2, 62)
    );
    assert_eq!(
        remap_point(TransformConfig::rotate_0(), 64, 64, Point::new(9, 4)),
        Point::new(9, 4)
    );
}

#[test]
fn remap_rect_exact_values() {
    assert_eq!(
        remap_rect(
            TransformConfig::mirror_x(),
            64,
            64,
            Rectangle::new(Point::zero(), Size::new(4, 4))
        ),
        Rectangle::new(Point::new(60, 0), Size::new(4, 4))
    );
    assert_eq!(
        remap_rect(
            TransformConfig::transpose_xy(),
            64,
            64,
            Rectangle::new(Point::new(1, 2), Size::new(4, 2))
        ),
        Rectangle::new(Point::new(2, 1), Size::new(2, 4))
    );
}

#[test]
fn size_swap_all_mirror_combos() {
    // The reported size depends on transpose alone, never on the mirrors.
    for mx in [false, true] {
        for my in [false, true] {
            let flat = TransformConfig::new(mx, my, false);
            let swapped = TransformConfig::new(mx, my, true);
            assert_eq!(remap_size(flat, Size::new(128, 64)), Size::new(128, 64));
            assert_eq!(remap_size(swapped, Size::new(128, 64)), Size::new(64, 128));

            let display = CoordinateTransform::new(
                BufferSurface::<bool>::new(128, 64),
                swapped,
            );
            assert_eq!(display.size(), Size::new(64, 128));
        }
    }
}

#[test]
fn rotation_group_composition() {
    // Over a 64 x 32 surface: rotate-90 twice is rotate-180, three times is
    // rotate-270, four times is the identity. A rotate-90 layer over the
    // surface uses logical dimensions (32, 64); the next layer (64, 32).
    let r90 = TransformConfig::rotate_90();
    for p in [Point::new(0, 0), Point::new(5, 17), Point::new(63, 31)] {
        let twice = remap_point(r90, 32, 64, remap_point(r90, 64, 32, p));
        assert_eq!(twice, remap_point(TransformConfig::rotate_180(), 64, 32, p));
    }
    for p in [Point::new(0, 0), Point::new(11, 3)] {
        let thrice = remap_point(
            r90,
            32,
            64,
            remap_point(r90, 64, 32, remap_point(r90, 32, 64, p)),
        );
        assert_eq!(thrice, remap_point(TransformConfig::rotate_270(), 32, 64, p));
        let four = remap_point(
            r90,
            32,
            64,
            remap_point(r90, 64, 32, remap_point(r90, 32, 64, remap_point(r90, 64, 32, p))),
        );
        assert_eq!(four, p);
    }
}

#[test]
fn fill_matches_per_point_draw() {
    // Filling a rectangle through the decorator leaves the wrapped surface in
    // exactly the state that drawing the rectangle's points one by one does.
    let area = Rectangle::new(Point::new(2, 1), Size::new(4, 3));
    let config = TransformConfig::rotate_90();

    let mut filled = CoordinateTransform::new(BufferSurface::<u8>::new(10, 10), config);
    filled.fill_rectangle(&area, 7).unwrap();
    let filled = filled.into_inner();

    let mut pointwise = CoordinateTransform::new(BufferSurface::<u8>::new(10, 10), config);
    let mut points = Vec::new();
    for dy in 0..3 {
        for dx in 0..4 {
            points.push((Point::new(2 + dx, 1 + dy), 7u8));
        }
    }
    pointwise.draw_points(&points).unwrap();
    let pointwise = pointwise.into_inner();

    for y in 0..10 {
        for x in 0..10 {
            assert_eq!(filled.get_pixel(x, y), pointwise.get_pixel(x, y));
        }
    }
}

#[test]
fn draw_points_last_write_wins() {
    let mut display = CoordinateTransform::new(
        BufferSurface::<u8>::new(8, 8),
        TransformConfig::mirror_x(),
    );
    let p = Point::new(1, 2);
    display.draw_points(&vec![(p, 3u8), (p, 9u8)]).unwrap();
    let surface = display.into_inner();
    assert_eq!(surface.get_pixel(6, 2), Some(9));
    assert_eq!(surface.get_pixel(1, 2), None);
}

#[test]
fn clear_same_under_every_config() {
    let mut cleared: Vec<BufferSurface<u8>> = Vec::new();
    for mx in [false, true] {
        for my in [false, true] {
            for tr in [false, true] {
                let mut display = CoordinateTransform::new(
                    BufferSurface::<u8>::new(5, 4),
                    TransformConfig::new(mx, my, tr),
                );
                display.clear(42).unwrap();
                cleared.push(display.into_inner());
            }
        }
    }
    for surface in &cleared {
        for y in 0..4 {
            for x in 0..5 {
                assert_eq!(surface.get_pixel(x, y), Some(42));
            }
        }
    }
}

#[test]
fn out_of_bounds_fill_fails() {
    // The decorator does no bounds checking: the failure is the surface's,
    // propagated unchanged.
    let mut display = CoordinateTransform::new(
        BufferSurface::<bool>::new(16, 16),
        TransformConfig::rotate_0(),
    );
    let before = display.borrow().affected_area();
    assert_eq!(
        display.fill_rectangle(&Rectangle::new(Point::new(14, 0), Size::new(4, 4)), true),
        Err(OutOfBounds)
    );
    assert_eq!(display.into_inner().affected_area(), before);
}

#[test]
fn out_of_bounds_points_fail() {
    let mut display = CoordinateTransform::new(
        BufferSurface::<bool>::new(16, 16),
        TransformConfig::rotate_0(),
    );
    assert_eq!(
        display.draw_points(&vec![(Point::new(-1, 0), true)]),
        Err(OutOfBounds)
    );
    assert_eq!(display.into_inner().get_pixel(0, 0), None);
}

#[test]
fn empty_fill_draws_nothing() {
    let mut surface = BufferSurface::<bool>::new(8, 8);
    surface
        .fill_rect(&Rectangle::new(Point::new(3, 3), Size::new(0, 5)), true)
        .unwrap();
    assert_eq!(
        surface.affected_area(),
        Rectangle::new(Point::zero(), Size::new(0, 0))
    );
}

#[test]
fn borrow_mut_bypasses_transform() {
    let mut display = CoordinateTransform::new(
        BufferSurface::<bool>::new(8, 8),
        TransformConfig::mirror_x(),
    );
    display
        .borrow_mut()
        .fill_rect(&Rectangle::new(Point::zero(), Size::new(1, 1)), true)
        .unwrap();
    let surface = display.into_inner();
    assert_eq!(surface.get_pixel(0, 0), Some(true));
    assert_eq!(surface.get_pixel(7, 0), None);
}

#[test]
fn get_pixel_out_of_grid_is_none() {
    let surface = BufferSurface::<bool>::new(4, 4);
    assert_eq!(surface.get_pixel(-1, 0), None);
    assert_eq!(surface.get_pixel(0, 4), None);
    assert_eq!(surface.get_pixel(4, 0), None);
}

#[test]
fn mirror_uses_logical_dimensions() {
    // Regression for the fixed order: over a 128 x 64 surface, rotate-90
    // mirrors x in the logical width 64 (the raw height), not in 128.
    let mut display = CoordinateTransform::new(
        BufferSurface::<bool>::new(128, 64),
        TransformConfig::rotate_90(),
    );
    assert_eq!(display.size(), Size::new(64, 128));
    display
        .fill_rectangle(&Rectangle::new(Point::zero(), Size::new(4, 4)), true)
        .unwrap();
    assert_eq!(
        display.into_inner().affected_area(),
        Rectangle::new(Point::new(0, 60), Size::new(4, 4))
    );
}
