//! An in-memory RGBA bitmap: row-major, four bytes per pixel.
use vstd::prelude::*;
use crate::sa::Color;

verus! {

/// An RGBA bitmap with explicit pixel dimensions. The bytes are stored row by
/// row, four per pixel in the order red, green, blue, alpha.
#[derive(Clone, Debug, PartialEq, Eq)]
pub struct Bitmap {
    pub width: u32,
    pub height: u32,
    pub data: Vec<u8>,
}

/// What a bitmap shows: its size and its pixels in row-major order.
pub struct Picture {
    pub width: u32,
    pub height: u32,
    pub pixels: Seq<Color>,
}

impl View for Bitmap {
    type V = Picture;

    open spec fn view(&self) -> Picture {
        Picture { width: self.width, height: self.height, pixels: self.pixels() }
    }
}

/// The pixel that starts at byte `4 * i` of a raw buffer.
pub open spec fn pixel_at(data: Seq<u8>, i: int) -> Color {
    Color { r: data[4 * i], g: data[4 * i + 1], b: data[4 * i + 2], a: data[4 * i + 3] }
}

/// A canvas of `n` transparent pixels.
pub open spec fn blank(n: nat) -> Seq<Color> {
    Seq::new(n, |i: int| Color::transparent())
}

impl Bitmap {
    /// The number of pixels.
    pub open spec fn area(&self) -> nat {
        (self.width as nat) * (self.height as nat)
    }

    /// The buffer holds exactly four bytes for each pixel.
    pub open spec fn wf(&self) -> bool {
        self.data@.len() == 4 * self.area()
    }

    /// The pixels in row-major order.
    pub open spec fn pixels(&self) -> Seq<Color> {
        Seq::new(self.area(), |i: int| pixel_at(self.data@, i))
    }

    /// The index of the pixel in column `x` of row `y`.
    pub open spec fn index_of(&self, x: u32, y: u32) -> int {
        y as int * self.width as int + x as int
    }

    /// A fully transparent bitmap of the given size.
    pub fn new(width: u32, height: u32) -> (b: Bitmap)
        requires
            4 * (width as nat) * (height as nat) <= usize::MAX,
        ensures
            b.wf(),
            b.width == width,
            b.height == height,
            b.pixels() == blank(b.area()),
    {
        assert((width as nat) * (height as nat) <= usize::MAX) by (nonlinear_arith)
            requires
                4 * (width as nat) * (height as nat) <= usize::MAX,
        ;
        assert(4 * ((width as nat) * (height as nat)) == 4 * (width as nat) * (height as nat))
            by (nonlinear_arith);
        let area: usize = (width as usize) * (height as usize);
        let len: usize = 4 * area;
        let data: Vec<u8> = vec![0u8; len];
        let b = Bitmap { width, height, data };
        assert(b.pixels() =~= blank(b.area()));
        b
    }

    /// Wraps a raw buffer, or returns `None` when its length is not four
    /// bytes per pixel.
    pub fn from_raw(width: u32, height: u32, data: Vec<u8>) -> (r: Option<Bitmap>)
        ensures
            match r {
                Some(b) => b.wf() && b.width == width && b.height == height && b.data == data,
                None => data@.len() != 4 * (width as nat) * (height as nat),
            },
    {
        assert(4 * ((width as nat) * (height as nat)) == 4 * (width as nat) * (height as nat))
            by (nonlinear_arith);
        assert((width as nat) * (height as nat) <= 0xffff_ffff * 0xffff_ffff) by (nonlinear_arith)
            requires
                (width as nat) <= 0xffff_ffff,
                (height as nat) <= 0xffff_ffff,
        ;
        let expected: u128 = 4 * ((width as u128) * (height as u128));
        if data.len() as u128 == expected {
            Some(Bitmap { width, height, data })
        } else {
            None
        }
    }

    /// Gives the raw buffer back.
    pub fn into_raw(self) -> (data: Vec<u8>)
        ensures
            data == self.data,
    {
        self.data
    }

    pub fn width(&self) -> (w: u32)
        ensures
            w == self.width,
    {
        self.width
    }

    pub fn height(&self) -> (h: u32)
        ensures
            h == self.height,
    {
        self.height
    }

    /// The pixel with the given row-major index.
    pub fn pixel(&self, i: usize) -> (c: Color)
        requires
            self.wf(),
            i < self.area(),
        ensures
            c == self.pixels()[i as int],
    {
        let len: usize = self.data.len();
        assert(4 * i + 3 < len);
        let base: usize = 4 * i;
        Color {
            r: self.data[base],
            g: self.data[base + 1],
            b: self.data[base + 2],
            a: self.data[base + 3],
        }
    }

    /// Overwrites the pixel with the given row-major index.
    pub fn set_pixel(&mut self, i: usize, c: Color)
        requires
            old(self).wf(),
            i < old(self).area(),
        ensures
            final(self).wf(),
            final(self).width == old(self).width,
            final(self).height == old(self).height,
            final(self).pixels() == old(self).pixels().update(i as int, c),
    {
        let len: usize = self.data.len();
        assert(4 * i + 3 < len);
        let base: usize = 4 * i;
        self.data.set(base, c.r);
        self.data.set(base + 1, c.g);
        self.data.set(base + 2, c.b);
        self.data.set(base + 3, c.a);
        assert(self.pixels() =~= old(self).pixels().update(i as int, c));
    }

    /// The pixel in column `x` of row `y`.
    pub fn get_pixel(&self, x: u32, y: u32) -> (c: Color)
        requires
            self.wf(),
            x < self.width,
            y < self.height,
        ensures
            c == self.pixels()[self.index_of(x, y)],
            0 <= self.index_of(x, y) < self.area(),
    {
        let len: usize = self.data.len();
        proof {
            lemma_index_in_area(self.width as nat, self.height as nat, x as nat, y as nat);
        }
        let i: usize = (y as usize) * (self.width as usize) + (x as usize);
        self.pixel(i)
    }

    /// Overwrites the pixel in column `x` of row `y`.
    pub fn put_pixel(&mut self, x: u32, y: u32, c: Color)
        requires
            old(self).wf(),
            x < old(self).width,
            y < old(self).height,
        ensures
            final(self).wf(),
            final(self).width == old(self).width,
            final(self).height == old(self).height,
            final(self).pixels() == old(self).pixels().update(old(self).index_of(x, y), c),
    {
        let len: usize = self.data.len();
        proof {
            lemma_index_in_area(self.width as nat, self.height as nat, x as nat, y as nat);
        }
        let i: usize = (y as usize) * (self.width as usize) + (x as usize);
        self.set_pixel(i, c);
    }
}

/// A column and row inside a `width` by `height` grid give a row-major index
/// inside the grid's area.
pub proof fn lemma_index_in_area(width: nat, height: nat, x: nat, y: nat)
    requires
        x < width,
        y < height,
    ensures
        y * width + x < width * height,
        y * width <= y * width + x,
{
    assert(y * width + x < width * height) by (nonlinear_arith)
        requires
            x < width,
            y + 1 <= height,
    ;
}

/// Two well-formed bitmaps of one size that show the same pixels hold the
/// same bytes.
pub proof fn lemma_pixels_determine_bytes(a: Bitmap, b: Bitmap)
    requires
        a.wf(),
        b.wf(),
        a.width == b.width,
        a.height == b.height,
        a.pixels() == b.pixels(),
    ensures
        a.data@ == b.data@,
{
    assert forall|k: int| 0 <= k < a.data@.len() implies a.data@[k] == b.data@[k] by {
        let i = k / 4;
        assert(0 <= i < a.area());
        assert(a.pixels()[i] == pixel_at(a.data@, i));
        assert(b.pixels()[i] == pixel_at(b.data@, i));
        assert(pixel_at(a.data@, i) == pixel_at(b.data@, i));
        assert(k == 4 * i || k == 4 * i + 1 || k == 4 * i + 2 || k == 4 * i + 3);
    }
    assert(a.data@ =~= b.data@);
}

} // verus!
