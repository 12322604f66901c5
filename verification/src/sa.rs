//! The composition model: colours, layers and the layered document.
use vstd::prelude::*;
use crate::geometry::{ControlPoints, Point, Scale};

verus! {

/// An RGBA colour with eight bits per channel.
#[derive(Clone, Copy, Debug, PartialEq, Eq, Structural)]
pub struct Color {
    pub r: u8,
    pub g: u8,
    pub b: u8,
    pub a: u8,
}

impl Color {
    /// The colour with every channel at zero.
    pub open spec fn transparent() -> Color {
        Color { r: 0, g: 0, b: 0, a: 0 }
    }

    pub fn new(r: u8, g: u8, b: u8, a: u8) -> (c: Color)
        ensures
            c == (Color { r, g, b, a }),
    {
        Color { r, g, b, a }
    }

    /// A colour is crisp when it is either fully transparent or fully opaque.
    pub open spec fn is_crisp(&self) -> bool {
        self.a == 0 || self.a == 255
    }
}

/// One symbol stamp: which symbol, where its four corners land, how it is
/// tinted and whether it is shown at all.
#[derive(Clone, Copy, Debug, PartialEq, Eq, Structural)]
pub struct SymbolArtLayer {
    pub symbol_id: u32,
    pub top_left: Point,
    pub top_right: Point,
    pub bottom_right: Point,
    pub bottom_left: Point,
    pub color: Color,
    pub hidden: bool,
}

/// A layered composition. The first layer of the list is the front-most.
#[derive(Clone, Debug, PartialEq, Eq)]
pub struct SymbolArt {
    pub width: u32,
    pub height: u32,
    pub layers: Vec<SymbolArtLayer>,
}

impl SymbolArtLayer {
    pub fn symbol_id(&self) -> (id: u32)
        ensures
            id == self.symbol_id,
    {
        self.symbol_id
    }

    pub fn color(&self) -> (c: Color)
        ensures
            c == self.color,
    {
        self.color
    }

    pub fn is_hidden(&self) -> (h: bool)
        ensures
            h == self.hidden,
    {
        self.hidden
    }

    /// The corners in the order top-left, top-right, bottom-right, bottom-left.
    pub fn corners(&self) -> (c: (Point, Point, Point, Point))
        ensures
            c == (self.top_left, self.top_right, self.bottom_right, self.bottom_left),
    {
        (self.top_left, self.top_right, self.bottom_right, self.bottom_left)
    }

    /// The warp that carries a symbol square of the given side onto this
    /// layer's corners at `scale`, each corner keeping its name.
    pub open spec fn warp_points(&self, side: u32, scale: Scale) -> ControlPoints {
        ControlPoints {
            side,
            top_left: self.top_left.scaled(scale),
            top_right: self.top_right.scaled(scale),
            bottom_right: self.bottom_right.scaled(scale),
            bottom_left: self.bottom_left.scaled(scale),
            den: scale.den,
        }
    }

    pub fn control_points(&self, side: u32, scale: Scale) -> (points: ControlPoints)
        ensures
            points == self.warp_points(side, scale),
    {
        ControlPoints {
            side,
            top_left: self.top_left.scale_by(scale),
            top_right: self.top_right.scale_by(scale),
            bottom_right: self.bottom_right.scale_by(scale),
            bottom_left: self.bottom_left.scale_by(scale),
            den: scale.den,
        }
    }
}

impl SymbolArt {
    pub fn new(width: u32, height: u32, layers: Vec<SymbolArtLayer>) -> (sa: SymbolArt)
        ensures
            sa.width == width,
            sa.height == height,
            sa.layers == layers,
    {
        SymbolArt { width, height, layers }
    }
}

} // verus!
