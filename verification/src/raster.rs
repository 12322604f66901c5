//! Pixel work that the `image` and `imageproc` crates do for the renderer,
//! each operation behind a contract over rows of pixels.
use vstd::prelude::*;
use crate::bitmap::Bitmap;
use crate::sa::Color;
use imageproc::geometric_transformations::Projection;

verus! {

/// `imageproc`'s perspective transform, carried as an opaque value.
#[verifier::external_type_specification]
#[verifier::external_body]
pub struct ExProjection(imageproc::geometric_transformations::Projection);

/// What `image`'s `Pixel::blend` leaves in an RGBA pixel `under` after
/// blending `over` onto it.
pub uninterp spec fn blended(under: Color, over: Color) -> Color;

/// What `imageproc`'s `warp_into` writes, with nearest-neighbour sampling and
/// a transparent default, into an image of `width` by `height` pixels when it
/// warps the given symbol through `projection`.
pub uninterp spec fn warped(
    symbol: Seq<Color>,
    symbol_width: u32,
    symbol_height: u32,
    projection: Projection,
    width: u32,
    height: u32,
) -> Seq<Color>;

/// Source-over compositing of one pixel: a transparent `over` leaves `under`
/// alone, an opaque `over` replaces it, anything between is blended.
pub open spec fn blend_over(under: Color, over: Color) -> Color {
    if over.a == 0 {
        under
    } else if over.a == 255 {
        over
    } else {
        blended(under, over)
    }
}

/// `top` composited over `bottom`, pixel by pixel.
pub open spec fn overlaid(bottom: Seq<Color>, top: Seq<Color>) -> Seq<Color> {
    Seq::new(bottom.len(), |i: int| blend_over(bottom[i], top[i]))
}

/// Every pixel of `out` is transparent or is one of the pixels of `source`.
pub open spec fn samples(out: Seq<Color>, source: Seq<Color>) -> bool {
    forall|i: int|
        0 <= i < out.len() ==> #[trigger] out[i] == Color::transparent() || source.contains(out[i])
}

/// The `width` by `height` window of a canvas that is `stride` pixels wide,
/// with its top-left corner in column `x` of row `y`.
pub open spec fn cropped(
    canvas: Seq<Color>,
    stride: u32,
    x: u32,
    y: u32,
    width: u32,
    height: u32,
) -> Seq<Color> {
    Seq::new(
        (width as nat) * (height as nat),
        |k: int| canvas[(y as int + k / (width as int)) * (stride as int) + x as int + k % (width as int)],
    )
}

/// Calls `image::Pixel::blend` on two RGBA pixels. The result is named
/// `blended`; as the crate's source shows, a fully transparent `over` leaves
/// `under` unchanged and a fully opaque `over` replaces it.
#[verifier::external_body]
pub(crate) fn blend(under: Color, over: Color) -> (out: Color)
    ensures
        out == blended(under, over),
        over.a == 0 ==> out == under,
        over.a == 255 ==> out == over,
{
    let mut pixel = image::Rgba([under.r, under.g, under.b, under.a]);
    image::Pixel::blend(&mut pixel, &image::Rgba([over.r, over.g, over.b, over.a]));
    Color { r: pixel.0[0], g: pixel.0[1], b: pixel.0[2], a: pixel.0[3] }
}

/// Calls `image::imageops::overlay` to draw `top` onto `bottom` at the
/// origin. For two images of one size the crate blends each pixel of `top`
/// onto the pixel of `bottom` at the same place.
#[verifier::external_body]
pub(crate) fn overlay(bottom: &mut Bitmap, top: &Bitmap)
    requires
        old(bottom).wf(),
        top.wf(),
        top.width == old(bottom).width,
        top.height == old(bottom).height,
    ensures
        final(bottom).wf(),
        final(bottom).width == old(bottom).width,
        final(bottom).height == old(bottom).height,
        final(bottom).pixels() == overlaid(old(bottom).pixels(), top.pixels()),
{
    let raw = std::mem::take(&mut bottom.data);
    let mut under = image::RgbaImage::from_raw(bottom.width, bottom.height, raw).unwrap();
    let over = image::ImageBuffer::<image::Rgba<u8>, &[u8]>::from_raw(
        top.width,
        top.height,
        &top.data[..],
    ).unwrap();
    image::imageops::overlay(&mut under, &over, 0, 0);
    bottom.data = under.into_raw();
}

/// Calls `imageproc::geometric_transformations::warp_into` with
/// nearest-neighbour interpolation and a transparent default pixel, on a
/// fresh image of `width` by `height` pixels. The result is named `warped`;
/// each of its pixels is the default or a pixel copied from the symbol. The
/// crate splits the output into rows of `width` pixels, which it cannot do
/// for a width of zero.
#[verifier::external_body]
pub(crate) fn warp(symbol: &Bitmap, projection: &Projection, width: u32, height: u32) -> (out: Bitmap)
    requires
        symbol.wf(),
        width > 0,
        4 * (width as nat) * (height as nat) <= usize::MAX,
    ensures
        out.wf(),
        out.width == width,
        out.height == height,
        out.pixels() == warped(
            symbol.pixels(),
            symbol.width,
            symbol.height,
            *projection,
            width,
            height,
        ),
        samples(out.pixels(), symbol.pixels()),
{
    let source = image::RgbaImage::from_raw(symbol.width, symbol.height, symbol.data.clone()).unwrap();
    let mut out = image::RgbaImage::new(width, height);
    imageproc::geometric_transformations::warp_into(
        &source,
        projection,
        imageproc::geometric_transformations::Interpolation::Nearest,
        image::Rgba([0; 4]),
        &mut out,
    );
    Bitmap { width, height, data: out.into_raw() }
}

/// Calls `image::GenericImage::sub_image` and copies the view out with
/// `to_image`: the result is the window of the canvas that starts in column
/// `x` of row `y`. The crate asserts that the window lies inside the canvas.
#[verifier::external_body]
pub(crate) fn crop(canvas: Bitmap, x: u32, y: u32, width: u32, height: u32) -> (out: Bitmap)
    requires
        canvas.wf(),
        x + width <= canvas.width,
        y + height <= canvas.height,
    ensures
        out.wf(),
        out.width == width,
        out.height == height,
        out.pixels() == cropped(canvas.pixels(), canvas.width, x, y, width, height),
{
    let mut whole = image::RgbaImage::from_raw(canvas.width, canvas.height, canvas.data).unwrap();
    let part = image::GenericImage::sub_image(&mut whole, x, y, width, height).to_image();
    Bitmap { width, height, data: part.into_raw() }
}

} // verus!
