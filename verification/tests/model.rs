use sar_core::{
    Bitmap, Color, ControlPoints, Point, Resource, Scale, ScaledPoint, SymbolArtLayer, SymbolImage,
};

#[test]
fn scale_needs_positive_parts() {
    assert_eq!(Scale::new(3, 2), Some(Scale { num: 3, den: 2 }));
    assert_eq!(Scale::new(0, 2), None);
    assert_eq!(Scale::new(3, 0), None);
    assert_eq!(Scale::identity(), Scale { num: 1, den: 1 });
}

#[test]
fn scaled_extent_is_the_floor() {
    assert_eq!(Scale::new(3, 2).unwrap().scaled_extent(192), 288);
    assert_eq!(Scale::new(3, 2).unwrap().scaled_extent(5), 7);
    assert_eq!(Scale::new(1, 3).unwrap().scaled_extent(5), 1);
    assert_eq!(Scale::new(1, 3).unwrap().scaled_extent(2), 0);
    assert_eq!(Scale::identity().scaled_extent(u32::MAX), u32::MAX as u64);
    assert_eq!(
        Scale::new(u32::MAX, 1).unwrap().scaled_extent(u32::MAX),
        (u32::MAX as u64) * (u32::MAX as u64)
    );
}

#[test]
fn scale_by_multiplies_by_the_numerator() {
    let scale = Scale::new(3, 2).unwrap();
    assert_eq!(Point::new(-7, 11).scale_by(scale), ScaledPoint { x: -21, y: 33 });
    let extreme = Scale::new(u32::MAX, 1).unwrap();
    assert_eq!(
        Point::new(i32::MIN, i32::MAX).scale_by(extreme),
        ScaledPoint {
            x: (i32::MIN as i64) * (u32::MAX as i64),
            y: (i32::MAX as i64) * (u32::MAX as i64),
        }
    );
}

#[test]
fn control_points_keep_the_corner_names() {
    let layer = SymbolArtLayer {
        symbol_id: 5,
        top_left: Point::new(1, 2),
        top_right: Point::new(3, 4),
        bottom_right: Point::new(5, 6),
        bottom_left: Point::new(7, 8),
        color: Color::new(1, 2, 3, 4),
        hidden: false,
    };
    let points = layer.control_points(64, Scale::new(5, 3).unwrap());
    assert_eq!(
        points,
        ControlPoints {
            side: 64,
            top_left: ScaledPoint { x: 5, y: 10 },
            top_right: ScaledPoint { x: 15, y: 20 },
            bottom_right: ScaledPoint { x: 25, y: 30 },
            bottom_left: ScaledPoint { x: 35, y: 40 },
            den: 3,
        }
    );
    assert_eq!(layer.symbol_id(), 5);
    assert_eq!(layer.color(), Color::new(1, 2, 3, 4));
    assert!(!layer.is_hidden());
    assert_eq!(
        layer.corners(),
        (Point::new(1, 2), Point::new(3, 4), Point::new(5, 6), Point::new(7, 8))
    );
}

#[test]
fn resource_keeps_squares_of_its_side_only() {
    let mut resource = Resource::new(4);
    assert_eq!(resource.len(), 0);
    assert!(resource.get_image(1).is_none());

    assert!(resource.insert(1, SymbolImage::Colorable(Bitmap::new(4, 4))));
    assert!(!resource.insert(2, SymbolImage::Colorable(Bitmap::new(4, 3))));
    assert!(!resource.insert(3, SymbolImage::FixedColor(Bitmap::new(8, 8))));
    let short = Bitmap { width: 4, height: 4, data: vec![0; 63] };
    assert!(!resource.insert(4, SymbolImage::FixedColor(short)));
    assert_eq!(resource.len(), 1);
    assert!(resource.get_image(2).is_none());

    let mut picture = Bitmap::new(4, 4);
    picture.put_pixel(1, 2, Color::new(9, 8, 7, 6));
    assert!(resource.insert(1, SymbolImage::FixedColor(picture.clone())));
    assert_eq!(resource.len(), 1);
    assert_eq!(resource.get_image(1), Some(&SymbolImage::FixedColor(picture.clone())));
    assert_eq!(resource.get_image(1).unwrap().inner(), &picture);
}

#[test]
fn pixel_index_is_row_major() {
    let mut bitmap = Bitmap::new(3, 2);
    bitmap.set_pixel(4, Color::new(1, 2, 3, 4));
    assert_eq!(bitmap.get_pixel(1, 1), Color::new(1, 2, 3, 4));
    assert_eq!(bitmap.pixel(4), Color::new(1, 2, 3, 4));
    assert_eq!(bitmap.clone().into_raw()[16..20], [1, 2, 3, 4]);
}
