//! The cache of symbol bitmaps that layers refer to.
use vstd::prelude::*;
use std::collections::HashMap;
use crate::bitmap::Bitmap;

verus! {

broadcast use vstd::std_specs::hash::group_hash_axioms;

/// One cached symbol.
#[derive(Clone, Debug, PartialEq, Eq)]
pub enum SymbolImage {
    /// An alpha mask: where it is not transparent, the layer's colour is
    /// painted.
    Colorable(Bitmap),
    /// A picture with colours of its own, painted as it is.
    FixedColor(Bitmap),
}

/// The symbol cache: square bitmaps of one side length, keyed by symbol id.
pub struct Resource {
    pub symbol_pixels: u32,
    pub images: HashMap<u32, SymbolImage>,
}

impl SymbolImage {
    /// The bitmap of either kind.
    pub open spec fn bitmap(&self) -> Bitmap {
        match self {
            SymbolImage::Colorable(b) => *b,
            SymbolImage::FixedColor(b) => *b,
        }
    }

    pub open spec fn is_colorable(&self) -> bool {
        self is Colorable
    }

    pub fn inner(&self) -> (b: &Bitmap)
        ensures
            *b == self.bitmap(),
    {
        match self {
            SymbolImage::Colorable(b) => b,
            SymbolImage::FixedColor(b) => b,
        }
    }

    /// Whether the bitmap is a square of the given side with a buffer of the
    /// matching length.
    pub open spec fn fits(&self, side: u32) -> bool {
        &&& self.bitmap().wf()
        &&& self.bitmap().width == side
        &&& self.bitmap().height == side
    }

    pub fn has_side(&self, side: u32) -> (ok: bool)
        ensures
            ok == self.fits(side),
    {
        let b = self.inner();
        assert((side as nat) * (side as nat) <= 0xffff_ffff * 0xffff_ffff) by (nonlinear_arith)
            requires
                (side as nat) <= 0xffff_ffff,
        ;
        let expected: u128 = 4 * ((side as u128) * (side as u128));
        b.width == side && b.height == side && b.data.len() as u128 == expected
    }
}

impl Resource {
    /// Every cached bitmap is a well-formed square of `symbol_pixels`.
    pub open spec fn wf(&self) -> bool {
        forall|id: u32| #[trigger]
            self.images@.contains_key(id) ==> self.images@[id].fits(self.symbol_pixels)
    }

    /// The cached symbols by id.
    pub open spec fn view(&self) -> Map<u32, SymbolImage> {
        self.images@
    }

    /// An empty cache for symbols of the given side.
    pub fn new(symbol_pixels: u32) -> (r: Resource)
        ensures
            r.wf(),
            r.symbol_pixels == symbol_pixels,
            r@ == Map::<u32, SymbolImage>::empty(),
    {
        Resource { symbol_pixels, images: HashMap::new() }
    }

    /// Stores `image` under `id`, replacing what was there, when it is a
    /// square of the cache's side; otherwise the cache is left as it was.
    pub fn insert(&mut self, id: u32, image: SymbolImage) -> (stored: bool)
        requires
            old(self).wf(),
        ensures
            final(self).wf(),
            final(self).symbol_pixels == old(self).symbol_pixels,
            stored == image.fits(old(self).symbol_pixels),
            final(self)@ == (if stored {
                old(self)@.insert(id, image)
            } else {
                old(self)@
            }),
    {
        if image.has_side(self.symbol_pixels) {
            self.images.insert(id, image);
            true
        } else {
            false
        }
    }

    /// The symbol stored under `id`, if there is one.
    pub fn get_image(&self, id: u32) -> (found: Option<&SymbolImage>)
        ensures
            match found {
                Some(image) => self@.contains_key(id) && *image == self@[id],
                None => !self@.contains_key(id),
            },
    {
        self.images.get(&id)
    }

    pub fn len(&self) -> (n: usize)
        ensures
            n == self@.len(),
    {
        self.images.len()
    }
}

} // verus!
