//! The mathematical model of a render: strokes painted back to front onto
//! chunk canvases, and chunk canvases merged onto the working canvas.
use vstd::prelude::*;
use crate::bitmap::{blank, Bitmap, Picture};
use crate::raster::{blend_over, cropped, overlaid};
use crate::result::SARError;
use crate::sa::Color;

verus! {

/// What one layer contributes to a canvas.
pub enum Stroke {
    /// Nothing: the layer is hidden, or it failed and failures are suppressed.
    Skip,
    /// The layer cannot be drawn and the render is abandoned.
    Fail(SARError),
    /// The warped symbol `mask` selects the pixels to paint. With a tint the
    /// selected pixels receive the tint, without one the mask's own colours.
    Paint { mask: Seq<Color>, tint: Option<Color> },
}

/// The colour that a stroke lays on pixel `i`.
pub open spec fn ink(mask: Seq<Color>, tint: Option<Color>, i: int) -> Color {
    match tint {
        Some(c) => c,
        None => mask[i],
    }
}

/// `base` after a stroke: wherever the mask is not fully transparent the ink
/// is composited over the pixel underneath.
pub open spec fn stamped(base: Seq<Color>, mask: Seq<Color>, tint: Option<Color>) -> Seq<Color> {
    Seq::new(
        base.len(),
        |i: int|
            if mask[i].a > 0 {
                blend_over(base[i], ink(mask, tint, i))
            } else {
                base[i]
            },
    )
}

/// One stroke applied to a canvas.
pub open spec fn apply(base: Seq<Color>, stroke: Stroke) -> Result<Seq<Color>, SARError> {
    match stroke {
        Stroke::Skip => Ok(base),
        Stroke::Fail(e) => Err(e),
        Stroke::Paint { mask, tint } => Ok(stamped(base, mask, tint)),
    }
}

/// A run of strokes painted onto `base`, the last of the run first and the
/// first of the run last, so that the first ends up in front. The first
/// failure met on the way, going from the last stroke to the first, is the
/// result.
pub open spec fn painted(base: Seq<Color>, strokes: Seq<Stroke>) -> Result<Seq<Color>, SARError>
    decreases strokes.len(),
{
    if strokes.len() == 0 {
        Ok(base)
    } else {
        match painted(base, strokes.drop_first()) {
            Err(e) => Err(e),
            Ok(under) => apply(under, strokes[0]),
        }
    }
}

/// The number of chunks of `size` items that cover `len` items.
pub open spec fn chunk_count(len: nat, size: nat) -> nat {
    if size == 0 {
        0
    } else {
        ((len + size - 1) / (size as int)) as nat
    }
}

/// The `k`-th chunk of `size` consecutive items; the last chunk may be short.
pub open spec fn chunk_of<T>(items: Seq<T>, size: nat, k: nat) -> Seq<T> {
    let start = (k * size) as int;
    let end = if start + size <= items.len() {
        start + size
    } else {
        items.len() as int
    };
    items.subrange(start, end)
}

/// The working canvas of `area` pixels after the chunks from index `from` to
/// the last have been merged: each chunk is painted onto a transparent canvas
/// of its own, and the chunk canvases are laid over the working canvas from
/// the last chunk to chunk `from`.
pub open spec fn merged(area: nat, strokes: Seq<Stroke>, size: nat, from: nat) -> Result<
    Seq<Color>,
    SARError,
>
    decreases chunk_count(strokes.len(), size) - from,
{
    if from >= chunk_count(strokes.len(), size) {
        Ok(blank(area))
    } else {
        match merged(area, strokes, size, from + 1) {
            Err(e) => Err(e),
            Ok(base) => match painted(blank(area), chunk_of(strokes, size, from)) {
                Err(e) => Err(e),
                Ok(top) => Ok(overlaid(base, top)),
            },
        }
    }
}

/// A canvas of known size as a picture.
pub open spec fn framed(width: u32, height: u32, canvas: Result<Seq<Color>, SARError>) -> Result<
    Picture,
    SARError,
> {
    match canvas {
        Ok(pixels) => Ok(Picture { width, height, pixels }),
        Err(e) => Err(e),
    }
}

/// The centred window of `view_width` by `view_height` pixels of a working
/// canvas, or the size error when the window is larger than the canvas.
pub open spec fn viewport(
    canvas: Seq<Color>,
    canvas_width: u32,
    canvas_height: u32,
    view_width: int,
    view_height: int,
) -> Result<Picture, SARError> {
    if view_width > canvas_width || view_height > canvas_height {
        Err(SARError::InternalSizeInvariantViolation)
    } else {
        let x = (canvas_width / 2 - view_width / 2) as u32;
        let y = (canvas_height / 2 - view_height / 2) as u32;
        Ok(
            Picture {
                width: view_width as u32,
                height: view_height as u32,
                pixels: cropped(canvas, canvas_width, x, y, view_width as u32, view_height as u32),
            },
        )
    }
}

/// An executable result agrees with a modelled one: the same error, or a
/// well-formed bitmap that shows the modelled picture.
pub open spec fn depicts(result: Result<Bitmap, SARError>, model: Result<Picture, SARError>) -> bool {
    match result {
        Ok(bitmap) => bitmap.wf() && model == Ok::<Picture, SARError>(bitmap@),
        Err(e) => model == Err::<Picture, SARError>(e),
    }
}

/// A chunk index below the chunk count starts inside the list.
pub proof fn lemma_chunk_starts_inside(len: nat, size: nat, k: nat)
    requires
        size >= 1,
        k < chunk_count(len, size),
    ensures
        k * size < len,
{
    let total = (len + size - 1) as int;
    let d = size as int;
    vstd::arithmetic::div_mod::lemma_fundamental_div_mod(total, d);
    vstd::arithmetic::div_mod::lemma_mod_bound(total, d);
    let q = total / d;
    assert(d * q <= total);
    assert((k as int) * d <= (q - 1) * d) by (nonlinear_arith)
        requires
            k as int <= q - 1,
            d >= 1,
    ;
    assert((q - 1) * d == d * q - d) by (nonlinear_arith);
}

/// The chunks cover the list; with no items there is no chunk.
pub proof fn lemma_chunk_count_covers(len: nat, size: nat)
    requires
        size >= 1,
    ensures
        chunk_count(len, size) * size >= len,
        len == 0 ==> chunk_count(len, size) == 0,
{
    let total = (len + size - 1) as int;
    let d = size as int;
    vstd::arithmetic::div_mod::lemma_fundamental_div_mod(total, d);
    vstd::arithmetic::div_mod::lemma_mod_bound(total, d);
    let q = total / d;
    assert(q * d == d * q) by (nonlinear_arith);
    if len == 0 {
        vstd::arithmetic::div_mod::lemma_basic_div(total, d);
    }
}

/// A failure among the strokes from index `j` on is the failure of the whole
/// run.
pub proof fn lemma_failure_surfaces(base: Seq<Color>, strokes: Seq<Stroke>, j: int)
    requires
        0 <= j <= strokes.len(),
        painted(base, strokes.subrange(j, strokes.len() as int)) is Err,
    ensures
        painted(base, strokes) == painted(base, strokes.subrange(j, strokes.len() as int)),
    decreases j,
{
    let n = strokes.len() as int;
    if j == 0 {
        assert(strokes.subrange(0, n) =~= strokes);
    } else {
        let outer = strokes.subrange(j - 1, n);
        assert(outer.drop_first() =~= strokes.subrange(j, n));
        assert(painted(base, outer) == painted(base, strokes.subrange(j, n)));
        lemma_failure_surfaces(base, strokes, j - 1);
    }
}

/// A failure while merging the chunks from `from` on is the failure of the
/// whole merge.
pub proof fn lemma_merge_failure_surfaces(area: nat, strokes: Seq<Stroke>, size: nat, from: nat)
    requires
        merged(area, strokes, size, from) is Err,
    ensures
        merged(area, strokes, size, 0) == merged(area, strokes, size, from),
    decreases from,
{
    if from > 0 {
        assert(from - 1 < chunk_count(strokes.len(), size));
        assert(merged(area, strokes, size, (from - 1) as nat) == merged(area, strokes, size, from));
        lemma_merge_failure_surfaces(area, strokes, size, (from - 1) as nat);
    }
}

/// Painting keeps the number of pixels.
pub proof fn lemma_painted_len(base: Seq<Color>, strokes: Seq<Stroke>)
    ensures
        painted(base, strokes) matches Ok(canvas) ==> canvas.len() == base.len(),
    decreases strokes.len(),
{
    if strokes.len() > 0 {
        lemma_painted_len(base, strokes.drop_first());
    }
}

/// Merging yields a canvas of `area` pixels.
pub proof fn lemma_merged_len(area: nat, strokes: Seq<Stroke>, size: nat, from: nat)
    ensures
        merged(area, strokes, size, from) matches Ok(canvas) ==> canvas.len() == area,
    decreases chunk_count(strokes.len(), size) - from,
{
    if from < chunk_count(strokes.len(), size) {
        lemma_merged_len(area, strokes, size, from + 1);
    }
}

} // verus!
