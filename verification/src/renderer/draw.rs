//! The drawer: renders a composition onto a working canvas, chunk by chunk,
//! and returns the centred viewport.
use vstd::prelude::*;
use imageproc::geometric_transformations::Projection;
use rayon::iter::{IndexedParallelIterator, ParallelIterator};
use rayon::slice::ParallelSlice;
use crate::bitmap::{blank, Bitmap, Picture};
use crate::geometry::{ControlPoints, Scale};
use crate::raster::{blend, crop, overlay, warp, warped};
use crate::renderer::model::{
    apply, chunk_count, chunk_of, depicts, framed, lemma_chunk_starts_inside,
    lemma_failure_surfaces, lemma_merge_failure_surfaces, merged, painted, stamped, viewport,
    Stroke,
};
use crate::resource::{Resource, SymbolImage};
use crate::result::SARError;
use crate::sa::{Color, SymbolArt, SymbolArtLayer};

verus! {

/// Rendering of compositions to bitmaps.
///
/// The perspective transform of each layer is solved outside, from the
/// layer's control points, and handed in: `projections` holds one entry per
/// layer, `None` where no transform exists.
pub trait Drawer {
    /// What a caller owes before a render.
    spec fn ready(&self, sa: SymbolArt, scale: Scale, projections: Seq<Option<Projection>>) -> bool;

    /// The picture, or the error, that a render yields.
    spec fn drawing(
        &self,
        sa: SymbolArt,
        scale: Scale,
        projections: Seq<Option<Projection>>,
    ) -> Result<Picture, SARError>;

    /// Renders at scale one.
    fn draw(&self, sa: &SymbolArt, projections: &Vec<Option<Projection>>) -> (result: Result<
        Bitmap,
        SARError,
    >)
        requires
            self.ready(*sa, Scale { num: 1, den: 1 }, projections@),
        ensures
            depicts(result, self.drawing(*sa, Scale { num: 1, den: 1 }, projections@)),
    ;

    /// Renders at the given scale.
    fn draw_with_scale(
        &self,
        sa: &SymbolArt,
        scale: Scale,
        projections: &Vec<Option<Projection>>,
    ) -> (result: Result<Bitmap, SARError>)
        requires
            self.ready(*sa, scale, projections@),
        ensures
            depicts(result, self.drawing(*sa, scale, projections@)),
    ;
}

/// Renders compositions with the symbols of a resource cache.
pub struct SymbolArtDrawer {
    pub resource: Resource,
    pub canvas_size: (u32, u32),
    pub chunk_size: usize,
    pub suppress_failure: bool,
}

/// Where the colour of a stroke comes from.
#[derive(Clone, Copy, Debug, PartialEq, Eq, Structural)]
pub enum RenderColor {
    /// Every selected pixel receives this colour.
    Color(Color),
    /// Every selected pixel receives the colour of the warped symbol.
    Symbol,
}

impl RenderColor {
    /// The tint of the stroke, if it has one.
    pub open spec fn tint(&self) -> Option<Color> {
        match self {
            RenderColor::Color(c) => Some(*c),
            RenderColor::Symbol => None,
        }
    }
}

/// The warped symbol on a scratch canvas of `width` by `height` pixels. A
/// canvas without columns has no pixels.
pub open spec fn scratch(symbol: Bitmap, projection: Projection, width: u32, height: u32) -> Seq<
    Color,
> {
    if width == 0 {
        blank(0)
    } else {
        warped(symbol.pixels(), symbol.width, symbol.height, projection, width, height)
    }
}

impl SymbolArtDrawer {
    /// The cache is well formed and chunks hold at least one layer.
    pub open spec fn wf(&self) -> bool {
        self.resource.wf() && self.chunk_size >= 1
    }

    /// A drawer with a working canvas of 256 by 256 logical units, chunks of
    /// ten layers, and failing layers skipped.
    pub fn new(resource: Resource) -> (drawer: Self)
        requires
            resource.wf(),
        ensures
            drawer.wf(),
            drawer.resource == resource,
            drawer.canvas_size == (256u32, 256u32),
            drawer.chunk_size == 10,
            drawer.suppress_failure,
    {
        SymbolArtDrawer { resource, canvas_size: (256, 256), chunk_size: 10, suppress_failure: true }
    }

    /// Chooses whether a failing layer aborts the render (`true`) or is
    /// skipped (`false`).
    pub fn with_raise_error(self, raise_error: bool) -> (drawer: Self)
        ensures
            drawer.resource == self.resource,
            drawer.canvas_size == self.canvas_size,
            drawer.chunk_size == self.chunk_size,
            drawer.suppress_failure == !raise_error,
    {
        let mut drawer = self;
        drawer.suppress_failure = !raise_error;
        drawer
    }

    /// Sets the number of layers per chunk. A render needs at least one.
    pub fn with_chunk_size(self, chunk_size: usize) -> (drawer: Self)
        ensures
            drawer.resource == self.resource,
            drawer.canvas_size == self.canvas_size,
            drawer.chunk_size == chunk_size,
            drawer.suppress_failure == self.suppress_failure,
    {
        let mut drawer = self;
        drawer.chunk_size = chunk_size;
        drawer
    }

    /// Sets the logical size of the working canvas.
    pub fn with_canvas_size(self, width: u32, height: u32) -> (drawer: Self)
        ensures
            drawer.resource == self.resource,
            drawer.canvas_size == (width, height),
            drawer.chunk_size == self.chunk_size,
            drawer.suppress_failure == self.suppress_failure,
    {
        let mut drawer = self;
        drawer.canvas_size = (width, height);
        drawer
    }

    /// The width of the working canvas in pixels.
    pub open spec fn canvas_width(&self, scale: Scale) -> int {
        scale.extent(self.canvas_size.0)
    }

    /// The height of the working canvas in pixels.
    pub open spec fn canvas_height(&self, scale: Scale) -> int {
        scale.extent(self.canvas_size.1)
    }

    /// The working canvas can be held in memory: its sides fit in 32 bits and
    /// its bytes can be counted.
    pub open spec fn canvas_fits(&self, scale: Scale) -> bool {
        &&& self.canvas_width(scale) <= u32::MAX
        &&& self.canvas_height(scale) <= u32::MAX
        &&& 4 * self.canvas_width(scale) * self.canvas_height(scale) <= usize::MAX
    }

    /// Whether the working canvas for `scale` can be held in memory.
    pub fn can_render(&self, scale: Scale) -> (ok: bool)
        requires
            scale.wf(),
        ensures
            ok == self.canvas_fits(scale),
    {
        let w: u64 = scale.scaled_extent(self.canvas_size.0);
        let h: u64 = scale.scaled_extent(self.canvas_size.1);
        if w > u32::MAX as u64 || h > u32::MAX as u64 {
            return false;
        }
        assert(0 <= (w as int) * (h as int) <= 0xffff_ffff * 0xffff_ffff) by (nonlinear_arith)
            requires
                0 <= w as int <= 0xffff_ffff,
                0 <= h as int <= 0xffff_ffff,
        ;
        assert(4 * (w as int) * (h as int) == 4 * ((w as int) * (h as int))) by (nonlinear_arith);
        let bytes: u128 = 4 * ((w as u128) * (h as u128));
        bytes <= usize::MAX as u128
    }

    /// The size of the working canvas in pixels.
    pub fn calc_canvas_size(&self, scale: Scale) -> (size: (u32, u32))
        requires
            scale.wf(),
            self.canvas_fits(scale),
        ensures
            size.0 as int == self.canvas_width(scale),
            size.1 as int == self.canvas_height(scale),
    {
        let w: u64 = scale.scaled_extent(self.canvas_size.0);
        let h: u64 = scale.scaled_extent(self.canvas_size.1);
        (w as u32, h as u32)
    }

    /// The size of the viewport in pixels: the floor of each logical side
    /// times the scale.
    pub fn calc_view_size(sa: &SymbolArt, scale: Scale) -> (size: (u64, u64))
        requires
            scale.wf(),
        ensures
            size.0 as int == scale.extent(sa.width),
            size.1 as int == scale.extent(sa.height),
    {
        (scale.scaled_extent(sa.width), scale.scaled_extent(sa.height))
    }

    /// What one layer contributes. A hidden layer contributes nothing,
    /// whatever else it holds. A layer with an unknown symbol, or for which
    /// no projection exists, is skipped when failures are suppressed and
    /// fails otherwise; the unknown symbol is reported first.
    pub open spec fn stroke(
        &self,
        layer: SymbolArtLayer,
        projection: Option<Projection>,
        scale: Scale,
        width: u32,
        height: u32,
    ) -> Stroke {
        if layer.hidden {
            Stroke::Skip
        } else if !self.resource@.contains_key(layer.symbol_id) {
            if self.suppress_failure {
                Stroke::Skip
            } else {
                Stroke::Fail(SARError::SymbolNotFound(layer.symbol_id))
            }
        } else {
            match projection {
                None => if self.suppress_failure {
                    Stroke::Skip
                } else {
                    Stroke::Fail(
                        SARError::ProjectionError(
                            layer.warp_points(self.resource.symbol_pixels, scale),
                        ),
                    )
                },
                Some(p) => {
                    let image = self.resource@[layer.symbol_id];
                    Stroke::Paint {
                        mask: scratch(image.bitmap(), p, width, height),
                        tint: if image.is_colorable() {
                            Some(layer.color)
                        } else {
                            None
                        },
                    }
                },
            }
        }
    }

    /// The strokes of a list of layers, one per layer and in the same order.
    pub open spec fn strokes(
        &self,
        layers: Seq<SymbolArtLayer>,
        projections: Seq<Option<Projection>>,
        scale: Scale,
        width: u32,
        height: u32,
    ) -> Seq<Stroke> {
        Seq::new(
            layers.len(),
            |j: int| self.stroke(layers[j], projections[j], scale, width, height),
        )
    }

    /// The strokes of a chunk of the layers are the chunk of the strokes.
    pub proof fn lemma_chunk_strokes(
        &self,
        layers: Seq<SymbolArtLayer>,
        projections: Seq<Option<Projection>>,
        scale: Scale,
        width: u32,
        height: u32,
        size: nat,
        k: nat,
    )
        requires
            size >= 1,
            layers.len() == projections.len(),
            k < chunk_count(layers.len(), size),
        ensures
            self.strokes(
                chunk_of(layers, size, k),
                chunk_of(projections, size, k),
                scale,
                width,
                height,
            ) == chunk_of(self.strokes(layers, projections, scale, width, height), size, k),
    {
        lemma_chunk_starts_inside(layers.len(), size, k);
        assert(0 <= k * size) by (nonlinear_arith);
        assert(self.strokes(
            chunk_of(layers, size, k),
            chunk_of(projections, size, k),
            scale,
            width,
            height,
        ) =~= chunk_of(self.strokes(layers, projections, scale, width, height), size, k));
    }

    /// Whether a render asks for the projection of this layer: it does for a
    /// visible layer whose symbol the cache holds.
    pub open spec fn needs_projection(&self, layer: SymbolArtLayer) -> bool {
        !layer.hidden && self.resource@.contains_key(layer.symbol_id)
    }

    /// The control points to solve for a layer, or `None` for a layer whose
    /// projection the render never looks at.
    pub open spec fn request(&self, layer: SymbolArtLayer, scale: Scale) -> Option<ControlPoints> {
        if self.needs_projection(layer) {
            Some(layer.warp_points(self.resource.symbol_pixels, scale))
        } else {
            None
        }
    }

    /// The control points of every layer whose projection a render at
    /// `scale` needs, in the order of the layers.
    pub fn projection_requests(&self, sa: &SymbolArt, scale: Scale) -> (requests: Vec<
        Option<ControlPoints>,
    >)
        ensures
            requests@.len() == sa.layers@.len(),
            forall|j: int|
                0 <= j < sa.layers@.len() ==> #[trigger] requests@[j] == self.request(
                    sa.layers@[j],
                    scale,
                ),
    {
        let n: usize = sa.layers.len();
        let mut requests: Vec<Option<ControlPoints>> = Vec::new();
        let mut j: usize = 0;
        while j < n
            invariant
                j <= n == sa.layers@.len(),
                requests@.len() == j,
                forall|k: int|
                    0 <= k < j ==> #[trigger] requests@[k] == self.request(sa.layers@[k], scale),
            decreases n - j,
        {
            let layer = &sa.layers[j];
            let wanted = !layer.hidden && self.resource.get_image(layer.symbol_id).is_some();
            if wanted {
                requests.push(Some(layer.control_points(self.resource.symbol_pixels, scale)));
            } else {
                requests.push(None);
            }
            j += 1;
        }
        requests
    }

    /// The perspective transform of a layer from the answer of the solver:
    /// the transform itself, or the projection error with the control points
    /// that have no solution.
    pub fn get_projection(
        &self,
        layer: &SymbolArtLayer,
        scale: Scale,
        solved: Option<Projection>,
    ) -> (result: Result<Projection, SARError>)
        ensures
            result == (match solved {
                Some(p) => Ok::<Projection, SARError>(p),
                None => Err::<Projection, SARError>(
                    SARError::ProjectionError(layer.warp_points(self.resource.symbol_pixels, scale)),
                ),
            }),
    {
        match solved {
            Some(p) => Ok(p),
            None => Err(
                SARError::ProjectionError(layer.control_points(self.resource.symbol_pixels, scale)),
            ),
        }
    }

    /// Composites a warped symbol onto `base`: every pixel that the symbol
    /// covers receives the given colour, or the symbol's own colour.
    pub fn render_symbol(base: &mut Bitmap, symbol: &Bitmap, color: RenderColor)
        requires
            old(base).wf(),
            symbol.wf(),
            symbol.width == old(base).width,
            symbol.height == old(base).height,
        ensures
            final(base).wf(),
            final(base).width == old(base).width,
            final(base).height == old(base).height,
            final(base).pixels() == stamped(old(base).pixels(), symbol.pixels(), color.tint()),
    {
        let len: usize = base.data.len();
        let area: usize = len / 4;
        let ghost before = base.pixels();
        let ghost mask = symbol.pixels();
        let ghost goal = stamped(before, mask, color.tint());
        let mut i: usize = 0;
        while i < area
            invariant
                i <= area == base.area(),
                base.wf(),
                symbol.wf(),
                base.width == old(base).width,
                base.height == old(base).height,
                symbol.area() == base.area(),
                mask == symbol.pixels(),
                before.len() == area,
                goal == stamped(before, mask, color.tint()),
                base.pixels().len() == area,
                forall|j: int| 0 <= j < i ==> base.pixels()[j] == goal[j],
                forall|j: int| i <= j < area ==> base.pixels()[j] == before[j],
            decreases area - i,
        {
            let cover = symbol.pixel(i);
            if cover.a > 0 {
                let under = base.pixel(i);
                let out = match color {
                    RenderColor::Color(c) => blend(under, c),
                    RenderColor::Symbol => blend(under, cover),
                };
                base.set_pixel(i, out);
            }
            i += 1;
        }
        assert(base.pixels() =~= goal);
    }

    /// Paints one chunk of layers onto a transparent canvas of its own, the
    /// last layer of the chunk first. The first failing layer met on the way
    /// ends the chunk with its error.
    pub fn render_chunk(
        &self,
        layers: &[SymbolArtLayer],
        projections: &[Option<Projection>],
        scale: Scale,
        width: u32,
        height: u32,
    ) -> (result: Result<Bitmap, SARError>)
        requires
            self.wf(),
            layers@.len() == projections@.len(),
            4 * (width as nat) * (height as nat) <= usize::MAX,
        ensures
            depicts(
                result,
                framed(
                    width,
                    height,
                    painted(
                        blank((width as nat) * (height as nat)),
                        self.strokes(layers@, projections@, scale, width, height),
                    ),
                ),
            ),
    {
        let ghost all = self.strokes(layers@, projections@, scale, width, height);
        let ghost area = (width as nat) * (height as nat);
        let n: usize = layers.len();
        let mut canvas = Bitmap::new(width, height);
        let mut i: usize = n;
        assert(all.subrange(n as int, n as int) =~= Seq::<Stroke>::empty());
        while i > 0
            invariant
                self.wf(),
                i <= n == layers@.len() == projections@.len(),
                all == self.strokes(layers@, projections@, scale, width, height),
                all.len() == n,
                area == (width as nat) * (height as nat),
                4 * (width as nat) * (height as nat) <= usize::MAX,
                canvas.wf(),
                canvas.width == width,
                canvas.height == height,
                painted(blank(area), all.subrange(i as int, n as int)) == Ok::<Seq<Color>, SARError>(
                    canvas.pixels(),
                ),
            decreases i,
        {
            i -= 1;
            let layer = &layers[i];
            let ghost rest = all.subrange(i as int + 1, n as int);
            let ghost run = all.subrange(i as int, n as int);
            proof {
                assert(run.drop_first() =~= rest);
                assert(run[0] == all[i as int]);
                assert(all[i as int] == self.stroke(
                    layers@[i as int],
                    projections@[i as int],
                    scale,
                    width,
                    height,
                ));
                assert(painted(blank(area), run) == apply(canvas.pixels(), all[i as int]));
            }
            if layer.hidden {
                continue;
            }
            let image = match self.resource.get_image(layer.symbol_id) {
                Some(image) => image,
                None => {
                    if self.suppress_failure {
                        continue;
                    }
                    proof {
                        lemma_failure_surfaces(blank(area), all, i as int);
                    }
                    return Err(SARError::SymbolNotFound(layer.symbol_id));
                },
            };
            let projection = match self.get_projection(layer, scale, projections[i]) {
                Ok(projection) => projection,
                Err(e) => {
                    if self.suppress_failure {
                        continue;
                    }
                    proof {
                        lemma_failure_surfaces(blank(area), all, i as int);
                    }
                    return Err(e);
                },
            };
            let symbol = if width == 0 {
                Bitmap::new(width, height)
            } else {
                warp(image.inner(), &projection, width, height)
            };
            assert(symbol.pixels() == scratch(image.bitmap(), projection, width, height));
            match image {
                SymbolImage::FixedColor(_) => {
                    Self::render_symbol(&mut canvas, &symbol, RenderColor::Symbol);
                },
                SymbolImage::Colorable(_) => {
                    Self::render_symbol(&mut canvas, &symbol, RenderColor::Color(layer.color));
                },
            }
        }
        assert(all.subrange(0, n as int) =~= all);
        Ok(canvas)
    }

    /// Hands the chunks of the layer list to `rayon`, which renders them in
    /// parallel: `par_chunks` cuts both slices into consecutive chunks of
    /// `chunk_size` items, the last one possibly shorter, and the collected
    /// results come in the order of the iterator, here from the last chunk to
    /// the first. Each result is what `render_chunk` returns for that chunk.
    #[verifier::external_body]
    fn render_chunks(
        &self,
        layers: &[SymbolArtLayer],
        projections: &[Option<Projection>],
        scale: Scale,
        width: u32,
        height: u32,
    ) -> (out: Vec<Result<Bitmap, SARError>>)
        requires
            self.wf(),
            layers@.len() == projections@.len(),
            4 * (width as nat) * (height as nat) <= usize::MAX,
        ensures
            out@.len() == chunk_count(layers@.len(), self.chunk_size as nat),
            forall|k: int|
                0 <= k < out@.len() ==> depicts(
                    #[trigger] out@[k],
                    framed(
                        width,
                        height,
                        painted(
                            blank((width as nat) * (height as nat)),
                            self.strokes(
                                chunk_of(layers@, self.chunk_size as nat, (out@.len() - 1 - k) as nat),
                                chunk_of(
                                    projections@,
                                    self.chunk_size as nat,
                                    (out@.len() - 1 - k) as nat,
                                ),
                                scale,
                                width,
                                height,
                            ),
                        ),
                    ),
                ),
    {
        layers.par_chunks(self.chunk_size).zip(projections.par_chunks(self.chunk_size)).rev().map(
            |(ls, ps)| self.render_chunk(ls, ps, scale, width, height),
        ).collect()
    }

    /// The strokes of a whole composition on this drawer's working canvas.
    pub open spec fn canvas_strokes(
        &self,
        sa: SymbolArt,
        scale: Scale,
        projections: Seq<Option<Projection>>,
    ) -> Seq<Stroke> {
        self.strokes(
            sa.layers@,
            projections,
            scale,
            self.canvas_width(scale) as u32,
            self.canvas_height(scale) as u32,
        )
    }

    /// The working canvas after every chunk has been merged.
    pub open spec fn working_canvas(
        &self,
        sa: SymbolArt,
        scale: Scale,
        projections: Seq<Option<Projection>>,
    ) -> Result<Seq<Color>, SARError> {
        merged(
            (self.canvas_width(scale) * self.canvas_height(scale)) as nat,
            self.canvas_strokes(sa, scale, projections),
            self.chunk_size as nat,
            0,
        )
    }
}

impl Drawer for SymbolArtDrawer {
    /// The drawer is well formed, the scale positive, there is one
    /// projection entry per layer, and the working canvas fits in memory.
    open spec fn ready(&self, sa: SymbolArt, scale: Scale, projections: Seq<Option<Projection>>) -> bool {
        &&& self.wf()
        &&& scale.wf()
        &&& projections.len() == sa.layers@.len()
        &&& self.canvas_fits(scale)
    }

    /// The viewport of the merged working canvas: the centred window whose
    /// sides are the floors of the logical sides times the scale. A layer
    /// failure comes before the size error.
    open spec fn drawing(
        &self,
        sa: SymbolArt,
        scale: Scale,
        projections: Seq<Option<Projection>>,
    ) -> Result<Picture, SARError> {
        match self.working_canvas(sa, scale, projections) {
            Err(e) => Err(e),
            Ok(canvas) => viewport(
                canvas,
                self.canvas_width(scale) as u32,
                self.canvas_height(scale) as u32,
                scale.extent(sa.width),
                scale.extent(sa.height),
            ),
        }
    }

    fn draw(&self, sa: &SymbolArt, projections: &Vec<Option<Projection>>) -> (result: Result<
        Bitmap,
        SARError,
    >) {
        self.draw_with_scale(sa, Scale::identity(), projections)
    }

    fn draw_with_scale(
        &self,
        sa: &SymbolArt,
        scale: Scale,
        projections: &Vec<Option<Projection>>,
    ) -> (result: Result<Bitmap, SARError>) {
        let (width, height) = self.calc_canvas_size(scale);
        let ghost area = (width as nat) * (height as nat);
        let ghost size = self.chunk_size as nat;
        let ghost all = self.canvas_strokes(*sa, scale, projections@);
        assert(4 * (width as nat) * (height as nat) == 4 * self.canvas_width(scale)
            * self.canvas_height(scale)) by (nonlinear_arith)
            requires
                width as int == self.canvas_width(scale),
                height as int == self.canvas_height(scale),
        ;
        assert(area == (self.canvas_width(scale) * self.canvas_height(scale)) as nat)
            by (nonlinear_arith)
            requires
                area == (width as nat) * (height as nat),
                width as int == self.canvas_width(scale),
                height as int == self.canvas_height(scale),
        ;
        let overlays = self.render_chunks(
            sa.layers.as_slice(),
            projections.as_slice(),
            scale,
            width,
            height,
        );
        let count: usize = overlays.len();
        proof {
            assert forall|k: int| 0 <= k < count implies depicts(
                #[trigger] overlays@[k],
                framed(
                    width,
                    height,
                    painted(blank(area), chunk_of(all, size, (count - 1 - k) as nat)),
                ),
            ) by {
                self.lemma_chunk_strokes(
                    sa.layers@,
                    projections@,
                    scale,
                    width,
                    height,
                    size,
                    (count - 1 - k) as nat,
                );
            }
        }
        let mut canvas = Bitmap::new(width, height);
        let mut k: usize = 0;
        while k < count
            invariant
                k <= count == overlays@.len(),
                count == chunk_count(all.len(), size),
                area == (width as nat) * (height as nat),
                area == (self.canvas_width(scale) * self.canvas_height(scale)) as nat,
                all == self.canvas_strokes(*sa, scale, projections@),
                size == self.chunk_size as nat,
                width as int == self.canvas_width(scale),
                height as int == self.canvas_height(scale),
                canvas.wf(),
                canvas.width == width,
                canvas.height == height,
                merged(area, all, size, (count - k) as nat) == Ok::<Seq<Color>, SARError>(
                    canvas.pixels(),
                ),
                forall|j: int|
                    0 <= j < count ==> depicts(
                        #[trigger] overlays@[j],
                        framed(
                            width,
                            height,
                            painted(blank(area), chunk_of(all, size, (count - 1 - j) as nat)),
                        ),
                    ),
            decreases count - k,
        {
            let ghost from = (count - 1 - k) as nat;
            assert(depicts(
                overlays@[k as int],
                framed(width, height, painted(blank(area), chunk_of(all, size, from))),
            ));
            assert(merged(area, all, size, from + 1) == Ok::<Seq<Color>, SARError>(canvas.pixels()));
            match &overlays[k] {
                Err(e) => {
                    proof {
                        lemma_merge_failure_surfaces(area, all, size, from);
                    }
                    return Err(*e);
                },
                Ok(top) => {
                    overlay(&mut canvas, top);
                },
            }
            k += 1;
        }
        let (view_width, view_height) = Self::calc_view_size(sa, scale);
        if view_width > width as u64 || view_height > height as u64 {
            return Err(SARError::InternalSizeInvariantViolation);
        }
        let x: u32 = width / 2 - (view_width as u32) / 2;
        let y: u32 = height / 2 - (view_height as u32) / 2;
        Ok(crop(canvas, x, y, view_width as u32, view_height as u32))
    }
}

} // verus!
