use coordinate_transform::geometry::{Point, Rectangle, Size};
use coordinate_transform::surface::BufferSurface;
use coordinate_transform::transform::{CoordinateTransform, TransformConfig};

fn display(config: TransformConfig) -> CoordinateTransform<BufferSurface<bool>> {
    CoordinateTransform::new(BufferSurface::new(64, 64), config)
}

#[test]
fn mirror_x() {
    let mut display = display(TransformConfig::mirror_x());

    display
        .fill_rectangle(&Rectangle::new(Point::zero(), Size::new(4, 4)), true)
        .unwrap();

    assert_eq!(
        display.into_inner().affected_area(),
        Rectangle::new(Point::new(60, 0), Size::new(4, 4))
    );
}

#[test]
fn mirror_y() {
    let mut display = display(TransformConfig::mirror_y());

    display
        .fill_rectangle(&Rectangle::new(Point::zero(), Size::new(4, 4)), true)
        .unwrap();

    assert_eq!(
        display.into_inner().affected_area(),
        Rectangle::new(Point::new(0, 60), Size::new(4, 4))
    );
}

#[test]
fn transpose_xy() {
    let mut display = display(TransformConfig::transpose_xy());

    display
        .fill_rectangle(&Rectangle::new(Point::zero(), Size::new(4, 2)), true)
        .unwrap();

    assert_eq!(
        display.into_inner().affected_area(),
        Rectangle::new(Point::zero(), Size::new(2, 4))
    );
}

#[test]
fn rotate0() {
    let mut display = display(TransformConfig::rotate_0());

    display
        .fill_rectangle(&Rectangle::new(Point::zero(), Size::new(4, 4)), true)
        .unwrap();

    assert_eq!(
        display.into_inner().affected_area(),
        Rectangle::new(Point::zero(), Size::new(4, 4))
    );
}

#[test]
fn rotate90() {
    let mut display = display(TransformConfig::rotate_90());

    display
        .fill_rectangle(&Rectangle::new(Point::zero(), Size::new(4, 4)), true)
        .unwrap();

    assert_eq!(
        display.into_inner().affected_area(),
        Rectangle::new(Point::new(0, 60), Size::new(4, 4))
    );
}

#[test]
fn rotate180() {
    let mut display = display(TransformConfig::rotate_180());

    display
        .fill_rectangle(&Rectangle::new(Point::zero(), Size::new(4, 4)), true)
        .unwrap();

    assert_eq!(
        display.into_inner().affected_area(),
        Rectangle::new(Point::new(60, 60), Size::new(4, 4))
    );
}

#[test]
fn rotate270() {
    let mut display = display(TransformConfig::rotate_270());

    display
        .fill_rectangle(&Rectangle::new(Point::zero(), Size::new(4, 4)), true)
        .unwrap();

    assert_eq!(
        display.into_inner().affected_area(),
        Rectangle::new(Point::new(60, 0), Size::new(4, 4))
    );
}
