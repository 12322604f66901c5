use imageproc::geometric_transformations::Projection;
use sar_core::renderer::draw::Drawer;
use sar_core::{
    Bitmap, Color, ControlPoints, Point, RenderColor, Resource, SARError, Scale, ScaledPoint,
    SymbolArt, SymbolArtDrawer, SymbolArtLayer, SymbolImage,
};

const WHITE: Color = Color { r: 255, g: 255, b: 255, a: 255 };
const RED: Color = Color { r: 255, g: 0, b: 0, a: 255 };
const BLUE: Color = Color { r: 0, g: 0, b: 255, a: 255 };
const GREEN: Color = Color { r: 0, g: 200, b: 0, a: 255 };
const CLEAR: Color = Color { r: 0, g: 0, b: 0, a: 0 };

const MASK: u32 = 1;
const PICTURE: u32 = 2;
const MISSING: u32 = 99;

fn solve(points: &ControlPoints) -> Option<Projection> {
    let side = points.side as f32;
    let den = points.den as f32;
    let at = |p: ScaledPoint| (p.x as f32 / den, p.y as f32 / den);
    Projection::from_control_points(
        [(0.0, 0.0), (side, 0.0), (side, side), (0.0, side)],
        [
            at(points.top_left),
            at(points.top_right),
            at(points.bottom_right),
            at(points.bottom_left),
        ],
    )
}

fn projections(drawer: &SymbolArtDrawer, sa: &SymbolArt, scale: Scale) -> Vec<Option<Projection>> {
    drawer
        .projection_requests(sa, scale)
        .iter()
        .map(|request| request.as_ref().and_then(solve))
        .collect()
}

fn solid(side: u32, color: Color) -> Bitmap {
    let mut bitmap = Bitmap::new(side, side);
    for y in 0..side {
        for x in 0..side {
            bitmap.put_pixel(x, y, color);
        }
    }
    bitmap
}

fn resource() -> Resource {
    let mut resource = Resource::new(4);
    assert!(resource.insert(MASK, SymbolImage::Colorable(solid(4, WHITE))));
    assert!(resource.insert(PICTURE, SymbolImage::FixedColor(solid(4, GREEN))));
    resource
}

fn square(symbol_id: u32, x: i32, y: i32, side: i32, color: Color) -> SymbolArtLayer {
    SymbolArtLayer {
        symbol_id,
        top_left: Point::new(x, y),
        top_right: Point::new(x + side, y),
        bottom_right: Point::new(x + side, y + side),
        bottom_left: Point::new(x, y + side),
        color,
        hidden: false,
    }
}

fn hidden(mut layer: SymbolArtLayer) -> SymbolArtLayer {
    layer.hidden = true;
    layer
}

fn render(drawer: &SymbolArtDrawer, sa: &SymbolArt, scale: Scale) -> Result<Bitmap, SARError> {
    assert!(drawer.can_render(scale));
    let projections = projections(drawer, sa, scale);
    drawer.draw_with_scale(sa, scale, &projections)
}

fn painted(bitmap: &Bitmap) -> usize {
    (0..bitmap.data.len() / 4).filter(|i| bitmap.pixel(*i).a > 0).count()
}

fn fixture() -> SymbolArt {
    SymbolArt::new(
        192,
        96,
        vec![
            square(MASK, 40, 90, 10, RED),
            square(PICTURE, 45, 95, 10, WHITE),
            hidden(square(MISSING, 0, 0, 0, BLUE)),
            square(MASK, 100, 100, 20, BLUE),
        ],
    )
}

#[test]
fn test_drawer() {
    let sa = fixture();
    let drawer = SymbolArtDrawer::new(resource()).with_raise_error(true);
    let projections = projections(&drawer, &sa, Scale::identity());
    let image = drawer.draw(&sa, &projections).unwrap();

    assert_eq!((image.width(), image.height()), (192, 96));
    assert_eq!(image.data.len(), 192 * 96 * 4);
    assert_eq!(painted(&image), 10 * 10 + 10 * 10 - 5 * 5 + 20 * 20);
}

#[test]
fn test_drawer_with_scale() {
    let sa = fixture();
    let drawer = SymbolArtDrawer::new(resource());
    let scale = Scale::new(2, 1).unwrap();
    let image = render(&drawer, &sa, scale).unwrap();

    assert_eq!((image.width(), image.height()), (384, 192));
    assert_eq!(image.data.len(), 384 * 192 * 4);
    assert_eq!(painted(&image), 4 * (10 * 10 + 10 * 10 - 5 * 5 + 20 * 20));
}

#[test]
fn draw_is_draw_with_scale_one() {
    let sa = fixture();
    let drawer = SymbolArtDrawer::new(resource());
    let projections = projections(&drawer, &sa, Scale::identity());
    let plain = drawer.draw(&sa, &projections).unwrap();
    let scaled = drawer.draw_with_scale(&sa, Scale::identity(), &projections).unwrap();
    assert_eq!(plain, scaled);
}

#[test]
fn repeated_renders_are_identical() {
    let sa = fixture();
    let drawer = SymbolArtDrawer::new(resource()).with_chunk_size(2);
    let scale = Scale::new(3, 2).unwrap();
    let first = render(&drawer, &sa, scale).unwrap();
    for _ in 0..5 {
        assert_eq!(render(&drawer, &sa, scale).unwrap(), first);
    }
}

#[test]
fn chunk_size_does_not_change_the_picture() {
    let mut layers = Vec::new();
    for k in 0..23 {
        let color = Color::new((k * 10) as u8, (255 - k * 10) as u8, 7, 255);
        let id = if k % 3 == 0 { PICTURE } else { MASK };
        layers.push(square(id, 40 + 4 * k, 90 + 2 * k, 12, color));
    }
    let sa = SymbolArt::new(192, 96, layers);
    let one = render(&SymbolArtDrawer::new(resource()).with_chunk_size(1), &sa, Scale::identity());
    let ten = render(&SymbolArtDrawer::new(resource()).with_chunk_size(10), &sa, Scale::identity());
    let all = render(&SymbolArtDrawer::new(resource()).with_chunk_size(100), &sa, Scale::identity());
    let one = one.unwrap();
    assert!(painted(&one) > 0);
    assert_eq!(one, ten.unwrap());
    assert_eq!(one, all.unwrap());
}

#[test]
fn chunk_size_does_not_change_the_error() {
    let sa = SymbolArt::new(
        192,
        96,
        vec![
            square(MISSING, 0, 0, 10, RED),
            square(MASK, 40, 90, 10, RED),
            square(MISSING + 1, 0, 0, 10, RED),
            square(MASK, 40, 90, 10, RED),
        ],
    );
    for chunk_size in [1, 2, 3, 10] {
        let drawer = SymbolArtDrawer::new(resource())
            .with_raise_error(true)
            .with_chunk_size(chunk_size);
        assert_eq!(
            render(&drawer, &sa, Scale::identity()),
            Err(SARError::SymbolNotFound(MISSING + 1))
        );
    }
}

#[test]
fn hidden_layer_never_shows_nor_fails() {
    let degenerate = SymbolArtLayer {
        symbol_id: MISSING,
        top_left: Point::new(5, 5),
        top_right: Point::new(5, 5),
        bottom_right: Point::new(5, 5),
        bottom_left: Point::new(5, 5),
        color: BLUE,
        hidden: true,
    };
    let with = SymbolArt::new(
        192,
        96,
        vec![square(MASK, 40, 90, 10, RED), degenerate, hidden(square(MASK, 40, 90, 30, BLUE))],
    );
    let without = SymbolArt::new(192, 96, vec![square(MASK, 40, 90, 10, RED)]);
    let drawer = SymbolArtDrawer::new(resource()).with_raise_error(true);

    assert_eq!(drawer.projection_requests(&with, Scale::identity())[1], None);
    assert_eq!(drawer.projection_requests(&with, Scale::identity())[2], None);
    let shown = render(&drawer, &with, Scale::identity()).unwrap();
    assert_eq!(shown, render(&drawer, &without, Scale::identity()).unwrap());
    assert_eq!(painted(&shown), 100);
}

#[test]
fn hidden_layer_ignores_its_projection_entry() {
    let sa = SymbolArt::new(192, 96, vec![hidden(square(MASK, 40, 90, 10, RED))]);
    let drawer = SymbolArtDrawer::new(resource()).with_raise_error(true);
    let solved = solve(&sa.layers[0].control_points(4, Scale::identity()));
    assert!(solved.is_some());
    let image = drawer.draw(&sa, &vec![solved]).unwrap();
    assert_eq!(painted(&image), 0);
    let image = drawer.draw(&sa, &vec![None]).unwrap();
    assert_eq!(painted(&image), 0);
}

#[test]
fn empty_composition_is_transparent() {
    let sa = SymbolArt::new(192, 96, Vec::new());
    let drawer = SymbolArtDrawer::new(resource());
    let image = render(&drawer, &sa, Scale::new(3, 2).unwrap()).unwrap();
    assert_eq!((image.width(), image.height()), (288, 144));
    assert_eq!(image.data, vec![0u8; 288 * 144 * 4]);
}

#[test]
fn doubling_the_scale_quadruples_the_shape() {
    let sa = SymbolArt::new(192, 96, vec![square(MASK, 40, 90, 10, RED)]);
    let drawer = SymbolArtDrawer::new(resource());
    let once = render(&drawer, &sa, Scale::identity()).unwrap();
    let twice = render(&drawer, &sa, Scale::new(2, 1).unwrap()).unwrap();
    assert_eq!(painted(&once), 100);
    assert_eq!(painted(&twice), 400);
    for y in 0..96 {
        for x in 0..192 {
            let expected = once.get_pixel(x, y);
            assert_eq!(twice.get_pixel(2 * x, 2 * y), expected);
            assert_eq!(twice.get_pixel(2 * x + 1, 2 * y + 1), expected);
        }
    }
}

#[test]
fn unknown_symbol_is_skipped_or_reported() {
    let sa = SymbolArt::new(
        192,
        96,
        vec![square(MISSING, 60, 90, 10, BLUE), square(MASK, 40, 90, 10, RED)],
    );
    let strict = SymbolArtDrawer::new(resource()).with_raise_error(true);
    assert_eq!(
        render(&strict, &sa, Scale::identity()),
        Err(SARError::SymbolNotFound(MISSING))
    );

    let lenient = SymbolArtDrawer::new(resource());
    let image = render(&lenient, &sa, Scale::identity()).unwrap();
    let only_valid = SymbolArt::new(192, 96, vec![square(MASK, 40, 90, 10, RED)]);
    assert_eq!(image, render(&lenient, &only_valid, Scale::identity()).unwrap());
    assert_eq!(painted(&image), 100);
    assert_eq!(image.get_pixel(10, 10), RED);
}

#[test]
fn with_raise_error_false_suppresses() {
    let sa = SymbolArt::new(192, 96, vec![square(MISSING, 60, 90, 10, BLUE)]);
    let drawer = SymbolArtDrawer::new(resource()).with_raise_error(true).with_raise_error(false);
    assert!(drawer.suppress_failure);
    assert_eq!(painted(&render(&drawer, &sa, Scale::identity()).unwrap()), 0);
}

#[test]
fn missing_projection_is_skipped_or_reported() {
    let layer = square(MASK, 40, 90, 10, RED);
    let sa = SymbolArt::new(192, 96, vec![layer, square(MASK, 60, 90, 10, BLUE)]);
    let scale = Scale::new(3, 2).unwrap();
    let strict = SymbolArtDrawer::new(resource()).with_raise_error(true);
    let mut entries = projections(&strict, &sa, scale);
    entries[0] = None;

    let expected = ControlPoints {
        side: 4,
        top_left: ScaledPoint { x: 120, y: 270 },
        top_right: ScaledPoint { x: 150, y: 270 },
        bottom_right: ScaledPoint { x: 150, y: 300 },
        bottom_left: ScaledPoint { x: 120, y: 300 },
        den: 2,
    };
    assert_eq!(
        strict.draw_with_scale(&sa, scale, &entries),
        Err(SARError::ProjectionError(expected))
    );

    let lenient = SymbolArtDrawer::new(resource());
    let image = lenient.draw_with_scale(&sa, scale, &entries).unwrap();
    assert_eq!(painted(&image), 15 * 15);
    // The working canvas has 384 by 384 pixels and the viewport 288 by 144:
    // canvas pixel (x, y) is view pixel (x - 48, y - 120).
    assert_eq!(image.get_pixel(64 - 48, 140 - 120), CLEAR);
    assert_eq!(image.get_pixel(94 - 48, 140 - 120), BLUE);
}

#[test]
fn unknown_symbol_is_reported_before_a_missing_projection() {
    let sa = SymbolArt::new(192, 96, vec![square(MISSING, 40, 90, 10, RED)]);
    let strict = SymbolArtDrawer::new(resource()).with_raise_error(true);
    assert_eq!(strict.draw(&sa, &vec![None]), Err(SARError::SymbolNotFound(MISSING)));
}

#[test]
fn the_last_failing_layer_is_reported() {
    let sa = SymbolArt::new(
        192,
        96,
        vec![square(MISSING, 40, 90, 10, RED), square(MASK, 40, 90, 10, RED)],
    );
    let strict = SymbolArtDrawer::new(resource()).with_raise_error(true);
    let points = sa.layers[1].control_points(4, Scale::identity());
    assert_eq!(strict.draw(&sa, &vec![None, None]), Err(SARError::ProjectionError(points)));
}

#[test]
fn first_layer_of_the_list_is_in_front() {
    let a = square(MASK, 40, 90, 10, RED);
    let b = square(MASK, 45, 95, 10, BLUE);
    let sa = SymbolArt::new(192, 96, vec![a, b]);
    for chunk_size in [1, 2, 10] {
        let drawer = SymbolArtDrawer::new(resource()).with_chunk_size(chunk_size);
        let image = render(&drawer, &sa, Scale::identity()).unwrap();
        // Canvas pixel (x, y) is view pixel (x - 32, y - 80).
        assert_eq!(image.get_pixel(46 - 32, 96 - 80), RED);
        assert_eq!(image.get_pixel(40 - 32, 90 - 80), RED);
        assert_eq!(image.get_pixel(52 - 32, 102 - 80), BLUE);
        assert_eq!(image.get_pixel(52 - 32, 90 - 80), CLEAR);
    }
}

#[test]
fn fixed_colour_symbol_keeps_its_colours() {
    let sa = SymbolArt::new(192, 96, vec![square(PICTURE, 40, 90, 10, RED)]);
    let drawer = SymbolArtDrawer::new(resource());
    let image = render(&drawer, &sa, Scale::identity()).unwrap();
    assert_eq!(image.get_pixel(44 - 32, 94 - 80), GREEN);
    assert_eq!(painted(&image), 100);
}

#[test]
fn viewport_is_the_centre_of_the_working_canvas() {
    let sa = SymbolArt::new(5, 3, vec![square(MASK, 5, 4, 2, RED)]);
    let drawer = SymbolArtDrawer::new(resource()).with_canvas_size(12, 10);
    let scale = Scale::new(3, 2).unwrap();
    assert_eq!(drawer.calc_canvas_size(scale), (18, 15));
    assert_eq!(SymbolArtDrawer::calc_view_size(&sa, scale), (7, 4));

    let image = render(&drawer, &sa, scale).unwrap();
    assert_eq!((image.width(), image.height()), (7, 4));

    let whole = SymbolArt::new(12, 10, sa.layers.clone());
    let canvas = render(&drawer, &whole, scale).unwrap();
    assert_eq!((canvas.width(), canvas.height()), (18, 15));
    assert!(painted(&canvas) > 0);
    // 18 / 2 - 7 / 2 = 6 columns and 15 / 2 - 4 / 2 = 5 rows are cut off.
    for y in 0..4 {
        for x in 0..7 {
            assert_eq!(image.get_pixel(x, y), canvas.get_pixel(x + 6, y + 5));
        }
    }
}

#[test]
fn viewport_larger_than_canvas_is_an_error() {
    let drawer = SymbolArtDrawer::new(resource());
    let wide = SymbolArt::new(257, 96, Vec::new());
    assert_eq!(
        render(&drawer, &wide, Scale::identity()),
        Err(SARError::InternalSizeInvariantViolation)
    );
    let tall = SymbolArt::new(192, 300, vec![square(MASK, 40, 90, 10, RED)]);
    assert_eq!(
        render(&drawer, &tall, Scale::identity()),
        Err(SARError::InternalSizeInvariantViolation)
    );
    let exact = SymbolArt::new(256, 256, Vec::new());
    assert!(render(&drawer, &exact, Scale::identity()).is_ok());
}

#[test]
fn layer_error_comes_before_the_size_error() {
    let strict = SymbolArtDrawer::new(resource()).with_raise_error(true);
    let sa = SymbolArt::new(300, 96, vec![square(MISSING, 40, 90, 10, RED)]);
    assert_eq!(
        render(&strict, &sa, Scale::identity()),
        Err(SARError::SymbolNotFound(MISSING))
    );
}

#[test]
fn tiny_scale_gives_an_empty_picture() {
    let sa = SymbolArt::new(192, 96, vec![square(MASK, 40, 90, 10, RED)]);
    let drawer = SymbolArtDrawer::new(resource());
    let scale = Scale::new(1, 1000).unwrap();
    assert_eq!(drawer.calc_canvas_size(scale), (0, 0));
    let solved = solve(&sa.layers[0].control_points(4, Scale::identity()));
    let image = drawer.draw_with_scale(&sa, scale, &vec![solved]).unwrap();
    assert_eq!((image.width(), image.height()), (0, 0));
    assert!(image.data.is_empty());
}

#[test]
fn translucent_colour_is_blended_by_the_image_crate() {
    let tint = Color::new(10, 200, 30, 100);
    let sa = SymbolArt::new(
        192,
        96,
        vec![square(MASK, 40, 90, 10, tint), square(MASK, 40, 90, 10, RED)],
    );
    let drawer = SymbolArtDrawer::new(resource());
    let image = render(&drawer, &sa, Scale::identity()).unwrap();

    let mut expected = image::Rgba([255u8, 0, 0, 255]);
    image::Pixel::blend(&mut expected, &image::Rgba([10, 200, 30, 100]));
    assert_ne!(expected, image::Rgba([255u8, 0, 0, 255]));
    assert_ne!(expected, image::Rgba([10u8, 200, 30, 100]));
    let shown = image.get_pixel(44 - 32, 94 - 80);
    assert_eq!([shown.r, shown.g, shown.b, shown.a], expected.0);
}

#[test]
fn render_symbol_tints_or_copies() {
    let mut symbol = Bitmap::new(2, 2);
    symbol.put_pixel(0, 0, GREEN);
    symbol.put_pixel(1, 1, Color::new(9, 9, 9, 255));

    let mut base = solid(2, BLUE);
    SymbolArtDrawer::render_symbol(&mut base, &symbol, RenderColor::Color(RED));
    assert_eq!(base.get_pixel(0, 0), RED);
    assert_eq!(base.get_pixel(1, 0), BLUE);
    assert_eq!(base.get_pixel(0, 1), BLUE);
    assert_eq!(base.get_pixel(1, 1), RED);

    let mut base = solid(2, BLUE);
    SymbolArtDrawer::render_symbol(&mut base, &symbol, RenderColor::Symbol);
    assert_eq!(base.get_pixel(0, 0), GREEN);
    assert_eq!(base.get_pixel(1, 0), BLUE);
    assert_eq!(base.get_pixel(1, 1), Color::new(9, 9, 9, 255));

    let mut base = solid(2, BLUE);
    SymbolArtDrawer::render_symbol(&mut base, &symbol, RenderColor::Color(CLEAR));
    assert_eq!(base, solid(2, BLUE));
}

#[test]
fn render_chunk_paints_the_last_layer_first() {
    let drawer = SymbolArtDrawer::new(resource());
    let layers = vec![square(MASK, 2, 2, 4, RED), square(MASK, 4, 4, 4, BLUE)];
    let entries: Vec<Option<Projection>> = layers
        .iter()
        .map(|layer| solve(&layer.control_points(4, Scale::identity())))
        .collect();
    let canvas = drawer.render_chunk(&layers, &entries, Scale::identity(), 10, 10).unwrap();
    assert_eq!((canvas.width(), canvas.height()), (10, 10));
    assert_eq!(canvas.get_pixel(4, 4), RED);
    assert_eq!(canvas.get_pixel(6, 6), BLUE);
    assert_eq!(canvas.get_pixel(9, 9), CLEAR);
}

#[test]
fn get_projection_reports_the_control_points() {
    let drawer = SymbolArtDrawer::new(resource());
    let layer = square(MASK, 1, 2, 3, RED);
    let scale = Scale::new(5, 2).unwrap();
    let points = layer.control_points(4, scale);
    assert!(drawer.get_projection(&layer, scale, solve(&points)).is_ok());
    match drawer.get_projection(&layer, scale, None) {
        Err(SARError::ProjectionError(found)) => assert_eq!(found, points),
        _ => panic!("expected a projection error"),
    }
}

#[test]
fn defaults_of_a_new_drawer() {
    let drawer = SymbolArtDrawer::new(resource());
    assert_eq!(drawer.canvas_size, (256, 256));
    assert_eq!(drawer.chunk_size, 10);
    assert!(drawer.suppress_failure);
    let drawer = drawer.with_chunk_size(3).with_raise_error(true).with_canvas_size(64, 32);
    assert_eq!(drawer.canvas_size, (64, 32));
    assert_eq!(drawer.chunk_size, 3);
    assert!(!drawer.suppress_failure);
    assert_eq!(drawer.calc_canvas_size(Scale::new(1, 2).unwrap()), (32, 16));
}

#[test]
fn can_render_refuses_a_canvas_with_sides_beyond_32_bits() {
    let drawer = SymbolArtDrawer::new(resource()).with_canvas_size(u32::MAX, 1);
    assert!(!drawer.can_render(Scale::new(2, 1).unwrap()));
    assert!(SymbolArtDrawer::new(resource()).can_render(Scale::new(4, 1).unwrap()));
}

#[test]
fn translucent_layers_can_show_the_chunking() {
    let sa = SymbolArt::new(
        192,
        96,
        vec![
            square(MASK, 40, 90, 10, Color::new(255, 0, 0, 200)),
            square(MASK, 40, 90, 10, Color::new(0, 0, 255, 200)),
        ],
    );
    let apart = SymbolArtDrawer::new(resource()).with_chunk_size(1);
    let together = SymbolArtDrawer::new(resource()).with_chunk_size(2);
    let apart = render(&apart, &sa, Scale::identity()).unwrap();
    let together = render(&together, &sa, Scale::identity()).unwrap();
    assert_eq!(apart.get_pixel(12, 14), Color::new(209, 0, 45, 243));
    assert_eq!(together.get_pixel(12, 14), Color::new(208, 0, 45, 243));
}
