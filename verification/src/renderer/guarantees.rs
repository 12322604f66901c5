//! What a caller of the drawer can rely on, stated over compositions.
use vstd::prelude::*;
use imageproc::geometric_transformations::Projection;
use crate::bitmap::{blank, lemma_pixels_determine_bytes, Bitmap, Picture};
use crate::geometry::{lemma_extent_monotonic, Scale};
use crate::raster::cropped;
use crate::renderer::draw::{Drawer, SymbolArtDrawer};
use crate::renderer::laws::{
    crisp, crisp_stroke, lemma_chunk_size_does_not_show, lemma_chunking_does_not_show,
    lemma_failing_stroke_fails_merge, lemma_front_opaque_wins, lemma_last_failure_wins,
    lemma_merge_failure_is_genuine, lemma_skip_leaves_no_trace, lemma_sound_strokes_merge,
    leaves_alone, sound,
};
use crate::renderer::model::{chunk_count, depicts, ink, merged, viewport, Stroke};
use crate::result::SARError;
use crate::sa::{Color, SymbolArt};

verus! {

/// Two results are the same: the same error, or bitmaps of one size with the
/// same bytes.
pub open spec fn same_result(first: Result<Bitmap, SARError>, second: Result<Bitmap, SARError>) -> bool {
    match (first, second) {
        (Ok(a), Ok(b)) => a.width == b.width && a.height == b.height && a.data@ == b.data@,
        (Err(e), Err(f)) => e == f,
        _ => false,
    }
}

/// Two drawers differ at most in their chunk size.
pub open spec fn same_but_chunking(a: SymbolArtDrawer, b: SymbolArtDrawer) -> bool {
    &&& a.resource@ == b.resource@
    &&& a.resource.symbol_pixels == b.resource.symbol_pixels
    &&& a.canvas_size == b.canvas_size
    &&& a.suppress_failure == b.suppress_failure
}

/// The number of pixels of the working canvas.
pub open spec fn canvas_area(drawer: SymbolArtDrawer, scale: Scale) -> nat {
    (drawer.canvas_width(scale) * drawer.canvas_height(scale)) as nat
}

/// Determinism: two renders of one composition with one drawer, scale and
/// list of projections give the same bytes or the same error.
pub proof fn lemma_rendering_is_determined(
    drawer: SymbolArtDrawer,
    sa: SymbolArt,
    scale: Scale,
    projections: Seq<Option<Projection>>,
    first: Result<Bitmap, SARError>,
    second: Result<Bitmap, SARError>,
)
    requires
        depicts(first, drawer.drawing(sa, scale, projections)),
        depicts(second, drawer.drawing(sa, scale, projections)),
    ensures
        same_result(first, second),
{
    match (first, second) {
        (Ok(a), Ok(b)) => {
            assert(a@ == b@);
            lemma_pixels_determine_bytes(a, b);
        },
        _ => {},
    }
}

/// Drawers that differ at most in their chunk size produce the same strokes.
pub proof fn lemma_same_strokes(
    a: SymbolArtDrawer,
    b: SymbolArtDrawer,
    sa: SymbolArt,
    scale: Scale,
    projections: Seq<Option<Projection>>,
)
    requires
        same_but_chunking(a, b),
    ensures
        a.canvas_strokes(sa, scale, projections) == b.canvas_strokes(sa, scale, projections),
{
    assert(a.canvas_strokes(sa, scale, projections) =~= b.canvas_strokes(sa, scale, projections));
}

/// Chunk invariance: when every stroke of the composition is crisp, two
/// drawers that differ only in their chunk size render the same picture, or
/// fail with the same error.
pub proof fn lemma_chunk_size_invariance(
    a: SymbolArtDrawer,
    b: SymbolArtDrawer,
    sa: SymbolArt,
    scale: Scale,
    projections: Seq<Option<Projection>>,
)
    requires
        a.chunk_size >= 1,
        b.chunk_size >= 1,
        same_but_chunking(a, b),
        crisp(a.canvas_strokes(sa, scale, projections), canvas_area(a, scale)),
    ensures
        a.drawing(sa, scale, projections) == b.drawing(sa, scale, projections),
{
    lemma_same_strokes(a, b, sa, scale, projections);
    lemma_chunk_size_does_not_show(
        canvas_area(a, scale),
        a.canvas_strokes(sa, scale, projections),
        a.chunk_size as nat,
        b.chunk_size as nat,
    );
}

/// When every cached symbol is colourable and every layer colour is fully
/// opaque or fully transparent, every stroke is crisp.
pub proof fn lemma_tinted_strokes_are_crisp(
    drawer: SymbolArtDrawer,
    sa: SymbolArt,
    scale: Scale,
    projections: Seq<Option<Projection>>,
)
    requires
        forall|id: u32| #[trigger]
            drawer.resource@.contains_key(id) ==> drawer.resource@[id].is_colorable(),
        forall|j: int| 0 <= j < sa.layers@.len() ==> (#[trigger] sa.layers@[j]).color.is_crisp(),
    ensures
        crisp(drawer.canvas_strokes(sa, scale, projections), canvas_area(drawer, scale)),
{
    let strokes = drawer.canvas_strokes(sa, scale, projections);
    assert forall|j: int| 0 <= j < strokes.len() implies crisp_stroke(
        #[trigger] strokes[j],
        canvas_area(drawer, scale),
    ) by {
        let layer = sa.layers@[j];
        assert(layer.color.is_crisp());
        if !layer.hidden && drawer.resource@.contains_key(layer.symbol_id) {
            assert(drawer.resource@[layer.symbol_id].is_colorable());
        }
    }
}

/// Hidden-layer exclusion: a hidden layer never shows and never fails.
/// Whatever symbol, corners, colour and projection two compositions hold in
/// the places where both have a hidden layer, they render alike when they
/// agree everywhere else.
pub proof fn lemma_hidden_layers_do_not_show(
    drawer: SymbolArtDrawer,
    a: SymbolArt,
    b: SymbolArt,
    scale: Scale,
    projections_a: Seq<Option<Projection>>,
    projections_b: Seq<Option<Projection>>,
)
    requires
        a.width == b.width,
        a.height == b.height,
        a.layers@.len() == b.layers@.len(),
        forall|j: int|
            0 <= j < a.layers@.len() ==> {
                ||| (#[trigger] a.layers@[j]).hidden && b.layers@[j].hidden
                ||| a.layers@[j] == b.layers@[j] && projections_a[j] == projections_b[j]
            },
    ensures
        drawer.drawing(a, scale, projections_a) == drawer.drawing(b, scale, projections_b),
{
    let sa = drawer.canvas_strokes(a, scale, projections_a);
    let sb = drawer.canvas_strokes(b, scale, projections_b);
    assert forall|j: int| 0 <= j < sa.len() implies sa[j] == sb[j] by {
        assert(a.layers@[j].hidden && b.layers@[j].hidden || a.layers@[j] == b.layers@[j]
            && projections_a[j] == projections_b[j]);
    }
    assert(sa =~= sb);
}

/// A hidden layer can also be taken out of a composition whose strokes are
/// crisp: the render without it, and without its projection entry, is the
/// same.
pub proof fn lemma_hidden_layer_can_be_removed(
    drawer: SymbolArtDrawer,
    with: SymbolArt,
    without: SymbolArt,
    scale: Scale,
    projections: Seq<Option<Projection>>,
    j: int,
)
    requires
        drawer.chunk_size >= 1,
        0 <= j < with.layers@.len(),
        projections.len() == with.layers@.len(),
        with.layers@[j].hidden,
        without.width == with.width,
        without.height == with.height,
        without.layers@ == with.layers@.remove(j),
        crisp(drawer.canvas_strokes(with, scale, projections), canvas_area(drawer, scale)),
    ensures
        drawer.drawing(with, scale, projections) == drawer.drawing(
            without,
            scale,
            projections.remove(j),
        ),
{
    let area = canvas_area(drawer, scale);
    let size = drawer.chunk_size as nat;
    let all = drawer.canvas_strokes(with, scale, projections);
    let fewer = drawer.canvas_strokes(without, scale, projections.remove(j));
    assert(fewer =~= all.remove(j));
    assert forall|k: int| 0 <= k < fewer.len() implies crisp_stroke(#[trigger] fewer[k], area) by {
        if k < j {
            assert(fewer[k] == all[k]);
        } else {
            assert(fewer[k] == all[k + 1]);
        }
    }
    lemma_chunking_does_not_show(area, all, size);
    lemma_chunking_does_not_show(area, fewer, size);
    lemma_skip_leaves_no_trace(blank(area), all, j);
}

/// A pixel inside a window lies inside the canvas that the window is cut
/// from.
pub proof fn lemma_window_inside(stride: int, rows: int, x: int, y: int, width: int, height: int, k: int)
    requires
        0 <= x,
        0 <= y,
        0 < width,
        x + width <= stride,
        y + height <= rows,
        0 <= k < width * height,
    ensures
        0 <= k / width < height,
        0 <= k % width < width,
        0 <= (y + k / width) * stride + x + k % width < stride * rows,
{
    vstd::arithmetic::div_mod::lemma_fundamental_div_mod(k, width);
    vstd::arithmetic::div_mod::lemma_mod_bound(k, width);
    vstd::arithmetic::div_mod::lemma_div_pos_is_pos(k, width);
    let q = k / width;
    let r = k % width;
    assert(q < height) by (nonlinear_arith)
        requires
            k == width * q + r,
            0 <= r,
            k < width * height,
            0 < width,
    ;
    assert(0 <= (y + q) * stride + x + r < stride * rows) by (nonlinear_arith)
        requires
            0 <= y,
            0 <= q,
            y + q + 1 <= rows,
            0 <= x,
            0 <= r,
            x + r < stride,
    ;
}

/// Transparent default: a composition without layers that is no larger than
/// the working canvas renders to a fully transparent picture whose sides are
/// the floors of the logical sides times the scale.
pub proof fn lemma_empty_composition_is_transparent(
    drawer: SymbolArtDrawer,
    sa: SymbolArt,
    scale: Scale,
    projections: Seq<Option<Projection>>,
)
    requires
        scale.wf(),
        drawer.canvas_fits(scale),
        sa.layers@.len() == 0,
        sa.width <= drawer.canvas_size.0,
        sa.height <= drawer.canvas_size.1,
    ensures
        drawer.drawing(sa, scale, projections) == Ok::<Picture, SARError>(
            Picture {
                width: scale.extent(sa.width) as u32,
                height: scale.extent(sa.height) as u32,
                pixels: blank((scale.extent(sa.width) * scale.extent(sa.height)) as nat),
            },
        ),
{
    let cw = drawer.canvas_width(scale);
    let ch = drawer.canvas_height(scale);
    let vw = scale.extent(sa.width);
    let vh = scale.extent(sa.height);
    lemma_extent_monotonic(scale, sa.width, drawer.canvas_size.0);
    lemma_extent_monotonic(scale, sa.height, drawer.canvas_size.1);
    let area = canvas_area(drawer, scale);
    let strokes = drawer.canvas_strokes(sa, scale, projections);
    assert(strokes.len() == 0);
    assert(chunk_count(0, drawer.chunk_size as nat) == 0) by {
        if drawer.chunk_size >= 1 {
            crate::renderer::model::lemma_chunk_count_covers(0, drawer.chunk_size as nat);
        }
    }
    assert(drawer.working_canvas(sa, scale, projections) == Ok::<Seq<Color>, SARError>(blank(area)));
    let x = (cw as u32 / 2 - vw / 2) as u32;
    let y = (ch as u32 / 2 - vh / 2) as u32;
    let window = cropped(blank(area), cw as u32, x, y, vw as u32, vh as u32);
    assert(vw * vh >= 0) by (nonlinear_arith)
        requires
            vw >= 0,
            vh >= 0,
    ;
    assert((vw as u32 as nat) * (vh as u32 as nat) == (vw * vh) as nat) by (nonlinear_arith)
        requires
            0 <= vw <= u32::MAX,
            0 <= vh <= u32::MAX,
    ;
    assert(area == cw * ch);
    assert forall|k: int| 0 <= k < window.len() implies window[k] == Color::transparent() by {
        lemma_window_inside(cw, ch, x as int, y as int, vw, vh, k);
    }
    assert(window =~= blank((vw * vh) as nat));
}

/// Suppressed failures: a drawer that skips failing layers never reports a
/// layer error; the only error it can return is that of a viewport larger
/// than the working canvas.
pub proof fn lemma_suppressed_layers_never_fail(
    drawer: SymbolArtDrawer,
    sa: SymbolArt,
    scale: Scale,
    projections: Seq<Option<Projection>>,
)
    requires
        drawer.chunk_size >= 1,
        drawer.suppress_failure,
    ensures
        drawer.working_canvas(sa, scale, projections) is Ok,
        drawer.drawing(sa, scale, projections) matches Err(e) ==> e
            == SARError::InternalSizeInvariantViolation,
{
    let strokes = drawer.canvas_strokes(sa, scale, projections);
    assert forall|j: int| 0 <= j < strokes.len() implies sound(#[trigger] strokes[j]) by {}
    lemma_sound_strokes_merge(canvas_area(drawer, scale), strokes, drawer.chunk_size as nat);
}

/// Strict failures: when a layer fails and no layer after it in the list
/// does, the render fails with the error of that layer, whatever the chunk
/// size.
pub proof fn lemma_strict_render_reports_last_failure(
    drawer: SymbolArtDrawer,
    sa: SymbolArt,
    scale: Scale,
    projections: Seq<Option<Projection>>,
    j: int,
    e: SARError,
)
    requires
        drawer.chunk_size >= 1,
        0 <= j < sa.layers@.len(),
        drawer.canvas_strokes(sa, scale, projections)[j] == Stroke::Fail(e),
        forall|i: int|
            j < i < sa.layers@.len() ==> sound(
                #[trigger] drawer.canvas_strokes(sa, scale, projections)[i],
            ),
    ensures
        drawer.drawing(sa, scale, projections) == Err::<Picture, SARError>(e),
{
    lemma_last_failure_wins(
        canvas_area(drawer, scale),
        drawer.canvas_strokes(sa, scale, projections),
        drawer.chunk_size as nat,
        j,
        e,
    );
}

/// A visible layer whose symbol the cache does not hold fails a strict
/// render: the render returns an error, and if no layer after it fails, the
/// error names the missing symbol.
pub proof fn lemma_unknown_symbol_fails_strict_render(
    drawer: SymbolArtDrawer,
    sa: SymbolArt,
    scale: Scale,
    projections: Seq<Option<Projection>>,
    j: int,
)
    requires
        drawer.chunk_size >= 1,
        !drawer.suppress_failure,
        0 <= j < sa.layers@.len(),
        !sa.layers@[j].hidden,
        !drawer.resource@.contains_key(sa.layers@[j].symbol_id),
    ensures
        drawer.drawing(sa, scale, projections) is Err,
        (forall|i: int|
            j < i < sa.layers@.len() ==> sound(
                #[trigger] drawer.canvas_strokes(sa, scale, projections)[i],
            )) ==> drawer.drawing(sa, scale, projections) == Err::<Picture, SARError>(
            SARError::SymbolNotFound(sa.layers@[j].symbol_id),
        ),
{
    let strokes = drawer.canvas_strokes(sa, scale, projections);
    let area = canvas_area(drawer, scale);
    let size = drawer.chunk_size as nat;
    let e = SARError::SymbolNotFound(sa.layers@[j].symbol_id);
    assert(strokes[j] == Stroke::Fail(e));
    if forall|i: int| j < i < sa.layers@.len() ==> sound(#[trigger] strokes[i]) {
        lemma_last_failure_wins(area, strokes, size, j, e);
    } else {
        if merged(area, strokes, size, 0) is Ok {
            lemma_failing_stroke_fails_merge(area, strokes, size, j);
        }
    }
}

/// Genuine errors: a layer error of a render is the error of one of the
/// layers of the composition.
pub proof fn lemma_layer_error_is_genuine(
    drawer: SymbolArtDrawer,
    sa: SymbolArt,
    scale: Scale,
    projections: Seq<Option<Projection>>,
) -> (j: int)
    requires
        drawer.chunk_size >= 1,
        drawer.working_canvas(sa, scale, projections) is Err,
    ensures
        0 <= j < sa.layers@.len(),
        drawer.canvas_strokes(sa, scale, projections)[j] == Stroke::Fail(
            drawer.working_canvas(sa, scale, projections)->Err_0,
        ),
        drawer.drawing(sa, scale, projections) == Err::<Picture, SARError>(
            drawer.working_canvas(sa, scale, projections)->Err_0,
        ),
{
    lemma_merge_failure_is_genuine(
        canvas_area(drawer, scale),
        drawer.canvas_strokes(sa, scale, projections),
        drawer.chunk_size as nat,
        0,
    )
}

/// Order of painting: the first layer of the list is in front. When layer
/// `j` paints pixel `i` of the working canvas with an opaque colour and no
/// layer before it in the list touches that pixel, the pixel shows the colour
/// of layer `j`, whatever the layers after it paint there.
pub proof fn lemma_front_layer_shows(
    drawer: SymbolArtDrawer,
    sa: SymbolArt,
    scale: Scale,
    projections: Seq<Option<Projection>>,
    j: int,
    i: int,
)
    requires
        drawer.chunk_size >= 1,
        0 <= j < sa.layers@.len(),
        0 <= i < canvas_area(drawer, scale),
        drawer.working_canvas(sa, scale, projections) is Ok,
        drawer.canvas_strokes(sa, scale, projections)[j] is Paint,
        drawer.canvas_strokes(sa, scale, projections)[j]->mask[i].a > 0,
        ink(
            drawer.canvas_strokes(sa, scale, projections)[j]->mask,
            drawer.canvas_strokes(sa, scale, projections)[j]->tint,
            i,
        ).a == 255,
        forall|m: int|
            0 <= m < j ==> leaves_alone(
                #[trigger] drawer.canvas_strokes(sa, scale, projections)[m],
                i,
            ),
    ensures
        drawer.working_canvas(sa, scale, projections)->Ok_0[i] == ink(
            drawer.canvas_strokes(sa, scale, projections)[j]->mask,
            drawer.canvas_strokes(sa, scale, projections)[j]->tint,
            i,
        ),
{
    lemma_front_opaque_wins(
        canvas_area(drawer, scale),
        drawer.canvas_strokes(sa, scale, projections),
        drawer.chunk_size as nat,
        j,
        i,
    );
}

/// Crop centring: the viewport has exactly the requested sides, and the
/// pixel in column `col` of row `row` is the pixel of the working canvas
/// that lies half the difference of the sides further right and further
/// down.
pub proof fn lemma_viewport_is_centred(
    canvas: Seq<Color>,
    canvas_width: u32,
    canvas_height: u32,
    view_width: int,
    view_height: int,
    col: int,
    row: int,
)
    requires
        0 <= view_width <= canvas_width,
        0 <= view_height <= canvas_height,
        0 <= col < view_width,
        0 <= row < view_height,
    ensures
        viewport(canvas, canvas_width, canvas_height, view_width, view_height) matches Ok(picture)
            && picture.width == view_width && picture.height == view_height
            && picture.pixels.len() == view_width * view_height && picture.pixels[row * view_width
            + col] == canvas[(canvas_height / 2 - view_height / 2 + row) * canvas_width + (
        canvas_width / 2 - view_width / 2) + col],
{
    let k = row * view_width + col;
    assert(0 <= k < view_width * view_height) by (nonlinear_arith)
        requires
            k == row * view_width + col,
            0 <= col < view_width,
            0 <= row,
            row + 1 <= view_height,
    ;
    assert(k == view_width * row + col) by (nonlinear_arith)
        requires
            k == row * view_width + col,
    ;
    vstd::arithmetic::div_mod::lemma_fundamental_div_mod_converse(k, view_width, row, col);
    assert((view_width as u32 as nat) * (view_height as u32 as nat) == view_width * view_height)
        by (nonlinear_arith)
        requires
            0 <= view_width <= u32::MAX,
            0 <= view_height <= u32::MAX,
    ;
}

/// Crop centring for a render: the picture has exactly the floor of each
/// logical side times the scale, and shows the centred window of the working
/// canvas.
pub proof fn lemma_picture_is_the_centre_of_the_canvas(
    drawer: SymbolArtDrawer,
    sa: SymbolArt,
    scale: Scale,
    projections: Seq<Option<Projection>>,
    col: int,
    row: int,
)
    requires
        scale.wf(),
        drawer.canvas_fits(scale),
        drawer.drawing(sa, scale, projections) is Ok,
        0 <= col < scale.extent(sa.width),
        0 <= row < scale.extent(sa.height),
    ensures
        drawer.working_canvas(sa, scale, projections) is Ok,
        ({
            let picture = drawer.drawing(sa, scale, projections)->Ok_0;
            let canvas = drawer.working_canvas(sa, scale, projections)->Ok_0;
            let left = drawer.canvas_width(scale) / 2 - scale.extent(sa.width) / 2;
            let top = drawer.canvas_height(scale) / 2 - scale.extent(sa.height) / 2;
            &&& picture.width == scale.extent(sa.width)
            &&& picture.height == scale.extent(sa.height)
            &&& picture.pixels.len() == scale.extent(sa.width) * scale.extent(sa.height)
            &&& picture.pixels[row * scale.extent(sa.width) + col] == canvas[(top + row)
                * drawer.canvas_width(scale) + left + col]
        }),
{
    lemma_extent_monotonic(scale, 0, drawer.canvas_size.0);
    lemma_extent_monotonic(scale, 0, drawer.canvas_size.1);
    lemma_viewport_is_centred(
        drawer.working_canvas(sa, scale, projections)->Ok_0,
        drawer.canvas_width(scale) as u32,
        drawer.canvas_height(scale) as u32,
        scale.extent(sa.width),
        scale.extent(sa.height),
        col,
        row,
    );
}

} // verus!
