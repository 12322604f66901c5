//! Rasterisation of layered symbol-art compositions into RGBA bitmaps.
//!
//! A composition is an ordered stack of symbol stamps, each warped onto a
//! quadrilateral and tinted. The drawer paints the stack onto an oversized
//! working canvas, chunk by chunk, and returns the centred viewport.
pub mod bitmap;
pub mod geometry;
pub mod raster;
pub mod renderer;
pub mod resource;
pub mod result;
pub mod sa;

pub use bitmap::{Bitmap, Picture};
pub use geometry::{ControlPoints, Point, Scale, ScaledPoint};
pub use renderer::draw::{Drawer, RenderColor, SymbolArtDrawer};
pub use resource::{Resource, SymbolImage};
pub use result::SARError;
pub use sa::{Color, SymbolArt, SymbolArtLayer};
