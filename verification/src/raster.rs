//! Decoded images: rows of pixels of three bytes each, and the tiles cut out
//! of them.

use crate::colors::Rgb24;
use crate::dominant::pixel_at;
use vstd::prelude::*;

verus! {

/// What a raster holds: its size in pixels and its bytes, row after row,
/// three bytes (red, green, blue) a pixel.
pub struct RasterView {
    pub width: nat,
    pub height: nat,
    pub pixels: Seq<u8>,
}

impl RasterView {
    /// The bytes are as many as the size asks for.
    pub open spec fn wf(self) -> bool {
        self.pixels.len() == self.width * self.height * 3
    }

    /// The bytes of row `y` from column `x0` up to column `x1`.
    pub open spec fn row_segment(self, y: int, x0: int, x1: int) -> Seq<u8> {
        self.pixels.subrange(3 * (y * self.width + x0), 3 * (y * self.width + x1))
    }

    /// The bytes of the rectangle of columns `x0..x1` and rows `y0..y1`, row
    /// after row.
    pub open spec fn tile(self, x0: int, x1: int, y0: int, y1: int) -> Seq<u8>
        decreases y1 - y0,
    {
        if y1 <= y0 {
            Seq::empty()
        } else {
            self.tile(x0, x1, y0, y1 - 1) + self.row_segment(y1 - 1, x0, x1)
        }
    }

    /// Every pixel of the raster has the given colour.
    pub open spec fn is_uniform(self, colour: Rgb24) -> bool {
        forall|i: int| 0 <= i < self.width * self.height ==> #[trigger] pixel_at(self.pixels, i) == colour
    }
}

/// A decoded image of 8-bit red, green and blue, without alpha.
pub struct Raster {
    width: u32,
    height: u32,
    pixels: Vec<u8>,
}

impl View for Raster {
    type V = RasterView;

    closed spec fn view(&self) -> RasterView {
        RasterView {
            width: self.width as nat,
            height: self.height as nat,
            pixels: self.pixels@,
        }
    }
}

/// A row's segment lies inside the raster's bytes.
pub proof fn lemma_segment_bounds(width: int, height: int, y: int, x0: int, x1: int)
    requires
        0 <= x0 <= x1 <= width,
        0 <= y < height,
    ensures
        0 <= 3 * (y * width + x0) <= 3 * (y * width + x1) <= width * height * 3,
{
    assert(0 <= y * width && y * width + width <= width * height) by (nonlinear_arith)
        requires
            0 <= y < height,
            0 <= width,
    ;
    assert(width * height * 3 == 3 * (width * height)) by (nonlinear_arith);
}

/// A tile has three bytes for each of its pixels.
pub proof fn lemma_tile_len(raster: RasterView, x0: int, x1: int, y0: int, y1: int)
    requires
        raster.wf(),
        0 <= x0 <= x1 <= raster.width,
        0 <= y0 <= y1 <= raster.height,
    ensures
        raster.tile(x0, x1, y0, y1).len() == (y1 - y0) * (x1 - x0) * 3,
    decreases y1 - y0,
{
    if y1 > y0 {
        lemma_tile_len(raster, x0, x1, y0, y1 - 1);
        lemma_segment_bounds(raster.width as int, raster.height as int, y1 - 1, x0, x1);
        assert((y1 - 1 - y0) * (x1 - x0) * 3 + 3 * (x1 - x0) == (y1 - y0) * (x1 - x0) * 3)
            by (nonlinear_arith);
    } else {
        assert((y1 - y0) * (x1 - x0) * 3 == 0) by (nonlinear_arith)
            requires
                y1 - y0 == 0,
        ;
    }
}

/// A tile of a raster of one colour has that colour in every pixel.
pub proof fn lemma_uniform_tile(
    raster: RasterView,
    colour: Rgb24,
    x0: int,
    x1: int,
    y0: int,
    y1: int,
)
    requires
        raster.wf(),
        raster.is_uniform(colour),
        0 <= x0 <= x1 <= raster.width,
        0 <= y0 <= y1 <= raster.height,
    ensures
        forall|j: int|
            0 <= j < (y1 - y0) * (x1 - x0) ==> #[trigger] pixel_at(
                raster.tile(x0, x1, y0, y1),
                j,
            ) == colour,
    decreases y1 - y0,
{
    if y1 > y0 {
        let tile = raster.tile(x0, x1, y0, y1);
        let above = raster.tile(x0, x1, y0, y1 - 1);
        let done = (y1 - 1 - y0) * (x1 - x0);
        lemma_uniform_tile(raster, colour, x0, x1, y0, y1 - 1);
        lemma_tile_len(raster, x0, x1, y0, y1 - 1);
        lemma_tile_len(raster, x0, x1, y0, y1);
        lemma_segment_bounds(raster.width as int, raster.height as int, y1 - 1, x0, x1);
        assert(done * 3 == 3 * done && done + (x1 - x0) == (y1 - y0) * (x1 - x0))
            by (nonlinear_arith)
            requires
                done == (y1 - 1 - y0) * (x1 - x0),
        ;
        assert(0 <= (y1 - 1) * raster.width && (y1 - 1) * raster.width + raster.width
            <= raster.width * raster.height) by (nonlinear_arith)
            requires
                0 <= y1 - 1 < raster.height,
                0 <= raster.width,
        ;
        assert forall|j: int| 0 <= j < (y1 - y0) * (x1 - x0) implies #[trigger] pixel_at(tile, j)
            == colour by {
            if j < done {
                assert(pixel_at(above, j) == colour);
                assert(pixel_at(tile, j) == pixel_at(above, j));
            } else {
                let i = (y1 - 1) * raster.width + x0 + (j - done);
                assert(pixel_at(raster.pixels, i) == colour);
                assert(pixel_at(tile, j) == pixel_at(raster.pixels, i));
            }
        }
    } else {
        assert((y1 - y0) * (x1 - x0) == 0) by (nonlinear_arith)
            requires
                y1 - y0 == 0,
        ;
    }
}

impl Raster {
    #[verifier::type_invariant]
    spec fn inv(self) -> bool {
        self.pixels@.len() == self.width * self.height * 3
    }

    /// A raster of the given size over the given bytes, three a pixel. `None`
    /// when the bytes are not as many as the size asks for.
    pub fn new(width: u32, height: u32, pixels: Vec<u8>) -> (raster: Option<Raster>)
        ensures
            raster is Some <==> pixels@.len() == width * height * 3,
            raster matches Some(r) ==> r@ == (RasterView {
                width: width as nat,
                height: height as nat,
                pixels: pixels@,
            }),
    {
        assert(width * height <= 0xffff_ffff * 0xffff_ffff) by (nonlinear_arith)
            requires
                width <= 0xffff_ffff,
                height <= 0xffff_ffff,
        ;
        let wanted: u128 = width as u128 * height as u128 * 3;
        if pixels.len() as u128 == wanted {
            Some(Raster { width, height, pixels })
        } else {
            None
        }
    }

    /// A raster of the given size over bytes that hold four a pixel (red,
    /// green, blue, alpha): the alpha byte of each pixel is left out. `None`
    /// when the bytes are not as many as the size asks for.
    pub fn from_rgba(width: u32, height: u32, pixels: &[u8]) -> (raster: Option<Raster>)
        ensures
            raster is Some <==> pixels@.len() == width * height * 4,
            raster matches Some(r) ==> {
                &&& r@.width == width
                &&& r@.height == height
                &&& r@.wf()
                &&& forall|i: int, c: int|
                    0 <= i < width * height && 0 <= c < 3 ==> #[trigger] r@.pixels[3 * i + c]
                        == pixels@[4 * i + c]
            },
    {
        assert(width * height <= 0xffff_ffff * 0xffff_ffff) by (nonlinear_arith)
            requires
                width <= 0xffff_ffff,
                height <= 0xffff_ffff,
        ;
        let count: u128 = width as u128 * height as u128;
        if pixels.len() as u128 != count * 4 {
            return None;
        }
        let n: usize = pixels.len() / 4;
        let mut kept: Vec<u8> = Vec::new();
        let mut i: usize = 0;
        while i < n
            invariant
                i <= n,
                n * 4 == pixels.len(),
                kept@.len() == 3 * i,
                forall|j: int, c: int|
                    0 <= j < i && 0 <= c < 3 ==> #[trigger] kept@[3 * j + c] == pixels@[4 * j + c],
            decreases n - i,
        {
            let ghost before = kept@;
            kept.push(pixels[4 * i]);
            kept.push(pixels[4 * i + 1]);
            kept.push(pixels[4 * i + 2]);
            i += 1;
            proof {
                assert forall|j: int, c: int| 0 <= j < i && 0 <= c < 3 implies #[trigger] kept@[3
                    * j + c] == pixels@[4 * j + c] by {
                    if j < i - 1 {
                        assert(kept@[3 * j + c] == before[3 * j + c]);
                    }
                }
            }
        }
        Some(Raster { width, height, pixels: kept })
    }

    /// The width in pixels.
    pub fn width(&self) -> (width: u32)
        ensures
            width == self@.width,
            self@.wf(),
    {
        proof {
            use_type_invariant(self);
        }
        self.width
    }

    /// The height in pixels.
    pub fn height(&self) -> (height: u32)
        ensures
            height == self@.height,
            self@.wf(),
    {
        proof {
            use_type_invariant(self);
        }
        self.height
    }

    /// The bytes, row after row.
    pub fn as_bytes(&self) -> (bytes: &[u8])
        ensures
            bytes@ == self@.pixels,
            self@.wf(),
    {
        proof {
            use_type_invariant(self);
        }
        self.pixels.as_slice()
    }

    /// The bytes of the rectangle of columns `x0..x1` and rows `y0..y1`, row
    /// after row.
    pub fn crop(&self, x0: u32, x1: u32, y0: u32, y1: u32) -> (bytes: Vec<u8>)
        requires
            x0 <= x1 <= self@.width,
            y0 <= y1 <= self@.height,
        ensures
            bytes@ == self@.tile(x0 as int, x1 as int, y0 as int, y1 as int),
            bytes@.len() == (y1 - y0) * (x1 - x0) * 3,
    {
        proof {
            use_type_invariant(self);
            lemma_tile_len(self@, x0 as int, x1 as int, y0 as int, y1 as int);
        }
        let mut bytes: Vec<u8> = Vec::new();
        let width = self.width as usize;
        let mut y = y0;
        while y < y1
            invariant
                y0 <= y <= y1 <= self.height,
                x0 <= x1 <= self.width,
                width == self.width,
                self.pixels.len() == self.width * self.height * 3,
                bytes@ == self@.tile(x0 as int, x1 as int, y0 as int, y as int),
            decreases y1 - y,
        {
            proof {
                lemma_segment_bounds(
                    self.width as int,
                    self.height as int,
                    y as int,
                    x0 as int,
                    x1 as int,
                );
            }
            let start: usize = 3 * (y as usize * width + x0 as usize);
            let end: usize = 3 * (y as usize * width + x1 as usize);
            let ghost above = bytes@;
            let mut k = start;
            while k < end
                invariant
                    start <= k <= end <= self.pixels.len(),
                    bytes@ == above + self.pixels@.subrange(start as int, k as int),
                decreases end - k,
            {
                bytes.push(self.pixels[k]);
                k += 1;
            }
            y += 1;
        }
        bytes
    }
}

} // verus!
