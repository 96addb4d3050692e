//! The edge map: the amplified difference of two blurred copies of an image.

use crate::colors::Rgb24;
use crate::dominant::pixel_at;
use crate::raster::{Raster, RasterView};
use crate::RenderError;
use vstd::prelude::*;

verus! {

/// How much a difference between the two copies is amplified.
pub const AMPLIFICATION: u8 = 3;

/// The edge strength of one byte: the absolute difference of the two blurred
/// values, amplified and cut off at 255.
pub open spec fn edge_value(a: u8, b: u8) -> u8 {
    let difference = if a >= b {
        a - b
    } else {
        b - a
    };
    if AMPLIFICATION * difference > 255 {
        255
    } else {
        (AMPLIFICATION * difference) as u8
    }
}

/// The edge strengths of two buffers, byte by byte.
pub open spec fn edge_bytes(a: Seq<u8>, b: Seq<u8>) -> Seq<u8> {
    Seq::new(a.len(), |i: int| edge_value(a[i], b[i]))
}

/// Two rasters have the same width and the same height.
pub open spec fn same_size(a: RasterView, b: RasterView) -> bool {
    a.width == b.width && a.height == b.height
}

/// The edge strength of one byte.
pub fn edge_strength(a: u8, b: u8) -> (edge: u8)
    ensures
        edge == edge_value(a, b),
{
    let difference: u8 = if a >= b {
        a - b
    } else {
        b - a
    };
    if difference > 255 / AMPLIFICATION {
        255
    } else {
        difference * AMPLIFICATION
    }
}

/// The edge map of an image from two blurred copies of it: a raster of their
/// size that holds, byte by byte, the edge strength. Fails when the copies
/// differ in size.
pub fn edge_map(narrow: &Raster, wide: &Raster) -> (map: Result<Raster, RenderError>)
    ensures
        map is Ok <==> same_size(narrow@, wide@),
        map matches Ok(edges) ==> edges@ == (RasterView {
            width: narrow@.width,
            height: narrow@.height,
            pixels: edge_bytes(narrow@.pixels, wide@.pixels),
        }),
        map matches Err(error) ==> error == RenderError::BufferConstructionFailure,
{
    if narrow.width() != wide.width() || narrow.height() != wide.height() {
        return Err(RenderError::BufferConstructionFailure);
    }
    let a = narrow.as_bytes();
    let b = wide.as_bytes();
    let mut bytes: Vec<u8> = Vec::new();
    let mut i: usize = 0;
    while i < a.len()
        invariant
            i <= a.len(),
            a.len() == b.len(),
            bytes@ == edge_bytes(a@, b@).subrange(0, i as int),
        decreases a.len() - i,
    {
        bytes.push(edge_strength(a[i], b[i]));
        i += 1;
    }
    assert(bytes@ == edge_bytes(a@, b@));
    match Raster::new(narrow.width(), narrow.height(), bytes) {
        Some(edges) => Ok(edges),
        None => Err(RenderError::BufferConstructionFailure),
    }
}

/// Where the two blurred copies are equal, the edge map is black throughout.
pub proof fn lemma_equal_copies_have_no_edges(copy: RasterView)
    requires
        copy.wf(),
    ensures
        (RasterView {
            width: copy.width,
            height: copy.height,
            pixels: edge_bytes(copy.pixels, copy.pixels),
        }).is_uniform(Rgb24 { r: 0, g: 0, b: 0 }),
{
    let edges = edge_bytes(copy.pixels, copy.pixels);
    assert forall|i: int| 0 <= i < copy.width * copy.height implies #[trigger] pixel_at(edges, i)
        == (Rgb24 { r: 0, g: 0, b: 0 }) by {
        assert(edges[3 * i] == 0 && edges[3 * i + 1] == 0 && edges[3 * i + 2] == 0);
    }
}

} // verus!
